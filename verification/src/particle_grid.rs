//! Buckets of particles by grid cell: which particles lie in which cell, and
//! the particles found in a box of cells.

use vstd::prelude::*;
use crate::vec3::UVec3;
use crate::grid::{CellType, Grid3D, linear_index, lemma_inside_reaches, lemma_write_then_read};
use vstd::set_lib::{set_int_range, lemma_int_range, lemma_len_subset};

verus! {

/// Marks a cell that holds no particle.
pub const EMPTY: u32 = 0xffff_ffffu32;

/// What a particle is made of.
#[derive(Clone, Copy, PartialEq, Eq, Structural, Debug)]
pub enum ParticleType {
    Fluid,
    Solid,
}

/// The indices `i < n` with `coords[i] == p`, in increasing order.
pub open spec fn particles_in(coords: Seq<UVec3>, p: UVec3, n: nat) -> Seq<usize>
    decreases n,
{
    if n == 0 {
        seq![]
    } else {
        let rest = particles_in(coords, p, (n - 1) as nat);
        if coords[n - 1] == p {
            rest.push((n - 1) as usize)
        } else {
            rest
        }
    }
}

/// `particles_in` holds exactly the indices below `n` whose cell is `p`.
pub proof fn lemma_particles_in_contains(coords: Seq<UVec3>, p: UVec3, n: nat, i: usize)
    requires
        n <= coords.len(),
        n <= usize::MAX + 1,
    ensures
        particles_in(coords, p, n).contains(i) <==> (i < n && coords[i as int] == p),
    decreases n,
{
    if n > 0 {
        lemma_particles_in_contains(coords, p, (n - 1) as nat, i);
        let rest = particles_in(coords, p, (n - 1) as nat);
        if coords[n - 1] == p {
            let s = rest.push((n - 1) as usize);
            if i == n - 1 {
                assert(s[rest.len() as int] == i);
            } else if s.contains(i) {
                let k = choose|k: int| 0 <= k < s.len() && #[trigger] s[k] == i;
                assert(rest[k] == i);
            }
            if rest.contains(i) {
                let k = choose|k: int| 0 <= k < rest.len() && #[trigger] rest[k] == i;
                assert(s[k] == i);
            }
        }
    }
}

/// Every index held by `particles_in` lies below `n`, and they increase.
pub proof fn lemma_particles_in_sorted(coords: Seq<UVec3>, p: UVec3, n: nat)
    requires
        n <= usize::MAX + 1,
    ensures
        forall|k: int| 0 <= k < particles_in(coords, p, n).len() ==> #[trigger] particles_in(coords, p, n)[k] < n,
        forall|k: int, l: int|
            0 <= k < l < particles_in(coords, p, n).len() ==> #[trigger] particles_in(coords, p, n)[k]
                < #[trigger] particles_in(coords, p, n)[l],
    decreases n,
{
    if n > 0 {
        lemma_particles_in_sorted(coords, p, (n - 1) as nat);
        let rest = particles_in(coords, p, (n - 1) as nat);
        let s = particles_in(coords, p, n);
        if coords[n - 1] == p {
            assert(s == rest.push((n - 1) as usize));
            assert forall|k: int| 0 <= k < s.len() implies #[trigger] s[k] < n by {
                if k < rest.len() {
                    assert(s[k] == rest[k]);
                }
            }
            assert forall|k: int, l: int| 0 <= k < l < s.len() implies #[trigger] s[k] < #[trigger] s[l] by {
                assert(s[k] == rest[k]);
                if l < rest.len() {
                    assert(s[l] == rest[l]);
                }
            }
        } else {
            assert(s == rest);
        }
    }
}

/// The cells of a domain of extent `dims` that hold at least one of the
/// particles with cells `coords`.
pub open spec fn occupied_cells(coords: Seq<UVec3>, dims: UVec3) -> Set<UVec3> {
    Set::new(|p: UVec3| p.inside(dims) && particles_in(coords, p, coords.len()).len() > 0)
}

/// Particles sorted into buckets, one bucket per occupied cell.
pub struct ParticleGrid {
    pub dimensions: UVec3,
    grid: Grid3D<u32>,
    pub cells: Vec<Vec<usize>>,
}

impl ParticleGrid {
    /// The bucket of cell `p`, or `EMPTY`.
    pub closed spec fn bucket(self, p: UVec3) -> u32 {
        self.grid.at_cell(p)
    }

    /// Extent of the domain.
    pub closed spec fn dims(self) -> UVec3 {
        self.dimensions
    }

    /// The buckets, in order, each with the particles it lists.
    pub closed spec fn buckets(self) -> Seq<Seq<usize>> {
        Seq::new(self.cells@.len(), |b: int| self.cells@[b]@)
    }

    /// The particles of cell `p`.
    pub open spec fn occupants(self, p: UVec3) -> Seq<usize> {
        if self.bucket(p) == EMPTY {
            seq![]
        } else {
            self.buckets()[self.bucket(p) as int]
        }
    }

    /// Every cell of the domain has a bucket or none, and every bucket exists.
    pub closed spec fn wf(self) -> bool {
        &&& self.grid.wf()
        &&& self.grid.dims() == self.dimensions
        &&& self.grid.fill_value() == EMPTY
        &&& forall|p: UVec3|
            p.inside(self.dimensions) ==> #[trigger] self.bucket(p) == EMPTY || self.bucket(p)
                < self.cells@.len()
    }

    /// The buckets hold exactly the particles with cells `coords`: each cell's
    /// bucket lists, in increasing order, the particles of that cell; a cell
    /// without particles has no bucket; buckets come in the order in which
    /// their cells are first met, and none is empty; an occupied cell's bucket
    /// is one of the buckets, there are as many buckets as occupied cells, and
    /// no bucket number reaches `EMPTY`.
    pub open spec fn sorted(self, coords: Seq<UVec3>) -> bool {
        &&& forall|p: UVec3|
            p.inside(self.dims()) && #[trigger] self.bucket(p) != EMPTY ==> self.bucket(p)
                < self.buckets().len()
        &&& self.buckets().len() < EMPTY
        &&& occupied_cells(coords, self.dims()).finite()
        &&& occupied_cells(coords, self.dims()).len() == self.buckets().len()
        &&& forall|p: UVec3|
            p.inside(self.dims()) ==> #[trigger] self.occupants(p) == particles_in(
                coords,
                p,
                coords.len(),
            )
        &&& forall|p: UVec3|
            p.inside(self.dims()) ==> (#[trigger] self.bucket(p)
                == EMPTY <==> particles_in(coords, p, coords.len()).len() == 0)
        &&& forall|b: int|
            0 <= b < self.buckets().len() ==> #[trigger] self.buckets()[b].len() > 0 && exists|p: UVec3|
                p.inside(self.dims()) && #[trigger] self.bucket(p)
                    == b
        &&& forall|b: int, c: int|
            0 <= b < c < self.buckets().len() ==> #[trigger] self.buckets()[b][0]
                < #[trigger] self.buckets()[c][0]
    }

    /// A grid of extent `dimensions` with no particle.
    pub fn new(dimensions: UVec3) -> (r: Self)
        requires
            dimensions.storable(),
        ensures
            r.wf(),
            r.dims() == dimensions,
            r.buckets().len() == 0,
            forall|p: UVec3| p.inside(dimensions) ==> #[trigger] r.occupants(p) == Seq::<usize>::empty(),
    {
        let r = Self {
            dimensions,
            grid: Grid3D::new(dimensions.x, dimensions.y, dimensions.z, EMPTY),
            cells: Vec::new(),
        };
        assert forall|p: UVec3| p.inside(dimensions) implies #[trigger] r.bucket(p) == EMPTY by {
            lemma_inside_reaches(r.grid, p);
            assert(cloned(EMPTY, r.grid.cells()[linear_index(dimensions, p.x as int, p.y as int, p.z as int)]));
        }
        r
    }

    /// Sorts the particles into buckets by their cells: particle `i` lies in
    /// cell `coords[i]`.
    pub fn sort(&mut self, coords: &[UVec3])
        requires
            old(self).wf(),
            coords@.len() < EMPTY || old(self).dims().volume() < EMPTY,
            forall|i: int| 0 <= i < coords@.len() ==> #[trigger] coords@[i].inside(old(self).dims()),
        ensures
            final(self).wf(),
            final(self).dims() == old(self).dims(),
            final(self).sorted(coords@),
    {
        self.grid.clear();
        self.cells.clear();
        let ghost dims = self.dimensions;
        assert(dims == old(self).dims());
        assert forall|p: UVec3| p.inside(dims) implies #[trigger] self.bucket(p) == EMPTY by {
            lemma_inside_reaches(self.grid, p);
        }
        assert forall|j: int| 0 <= j < dims.volume() implies #[trigger] self.grid.cells()[j] == EMPTY by {
            assert(cloned(EMPTY, self.grid.cells()[j]));
        }
        let ghost mut occupied: Set<UVec3> = Set::empty();
        let ghost mut occupied_slots: Set<int> = Set::empty();

        let n = coords.len();
        let mut particle_index: usize = 0;
        while particle_index < n
            invariant
                n == coords@.len(),
                n < EMPTY || dims.volume() < EMPTY,
                particle_index <= n,
                occupied.finite(),
                occupied.len() == self.cells@.len(),
                self.cells@.len() < EMPTY,
                forall|p: UVec3| #[trigger] occupied.contains(p) <==> p.inside(dims) && self.bucket(p) != EMPTY,
                occupied_slots.finite(),
                occupied_slots.len() == self.cells@.len(),
                forall|j: int|
                    #[trigger] occupied_slots.contains(j) <==> 0 <= j < dims.volume() && self.grid.cells()[j]
                        != EMPTY,
                self.dimensions == dims,
                self.grid.wf(),
                self.grid.dims() == dims,
                self.grid.fill_value() == EMPTY,
                forall|i: int| 0 <= i < coords@.len() ==> #[trigger] coords@[i].inside(dims),
                self.cells@.len() <= particle_index,
                forall|p: UVec3|
                    p.inside(dims) ==> #[trigger] self.bucket(p) == EMPTY || self.bucket(p)
                        < self.cells@.len(),
                forall|p: UVec3|
                    p.inside(dims) ==> #[trigger] self.occupants(p) == particles_in(
                        coords@,
                        p,
                        particle_index as nat,
                    ),
                forall|p: UVec3|
                    p.inside(dims) ==> (#[trigger] self.bucket(p) == EMPTY
                        <==> particles_in(coords@, p, particle_index as nat).len() == 0),
                forall|p: UVec3, q: UVec3|
                    p.inside(dims) && q.inside(dims) && #[trigger] self.bucket(p) != EMPTY
                        && self.bucket(p) == #[trigger] self.bucket(q) ==> p == q,
                forall|b: int, k: int|
                    0 <= b < self.cells@.len() && 0 <= k < self.cells@[b]@.len() ==> #[trigger] self.cells@[b]@[k]
                        < particle_index,
                forall|b: int, c: int|
                    0 <= b < c < self.cells@.len() ==> #[trigger] self.cells@[b]@[0]
                        < #[trigger] self.cells@[c]@[0],
                forall|b: int|
                    0 <= b < self.cells@.len() ==> #[trigger] self.cells@[b]@.len() > 0 && exists|p: UVec3|
                        p.inside(dims) && #[trigger] self.bucket(p) == b,
            decreases n - particle_index,
        {
            let cell = coords[particle_index];
            let ghost old_grid = self.grid;
            let ghost old_pg = *self;
            let ghost old_cells = self.cells@;
            let ghost i = particle_index as nat;
            proof {
                lemma_inside_reaches(self.grid, cell);
            }
            let cell_index = self.grid.get(cell.x, cell.y, cell.z);
            assert(old_pg.bucket(cell) == cell_index);
            let ghost slot = linear_index(dims, cell.x as int, cell.y as int, cell.z as int);
            if cell_index == EMPTY {
                proof {
                    assert(self.grid.cells()[slot] == EMPTY);
                    assert(!occupied.contains(cell));
                    assert(!occupied_slots.contains(slot));
                    if !(n < EMPTY) {
                        let range = set_int_range(0, dims.volume()).remove(slot);
                        lemma_int_range(0, dims.volume());
                        assert(occupied_slots.subset_of(range));
                        lemma_len_subset(occupied_slots, range);
                    }
                }
                let new_cell_index = self.cells.len() as u32;
                self.grid.set(cell.x, cell.y, cell.z, new_cell_index);
                let mut bucket: Vec<usize> = Vec::new();
                bucket.push(particle_index);
                self.cells.push(bucket);
                proof {
                    assert forall|p: UVec3| p.inside(dims) implies #[trigger] self.bucket(p) == (if p
                        == cell {
                        new_cell_index
                    } else {
                        old_pg.bucket(p)
                    }) by {
                        lemma_write_then_read(old_grid, self.grid, cell, p, new_cell_index);
                    }
                    occupied = occupied.insert(cell);
                    occupied_slots = occupied_slots.insert(slot);
                    assert forall|p: UVec3| #[trigger] occupied.contains(p) <==> p.inside(dims) && self.bucket(p)
                        != EMPTY by {
                        if p.inside(dims) {
                            assert(self.bucket(p) == (if p == cell {
                                new_cell_index
                            } else {
                                old_pg.bucket(p)
                            }));
                        }
                    }
                    assert forall|j: int|
                        #[trigger] occupied_slots.contains(j) <==> 0 <= j < dims.volume() && self.grid.cells()[j]
                            != EMPTY by {
                        if j != slot && 0 <= j < dims.volume() {
                            assert(self.grid.cells()[j] == old_grid.cells()[j]);
                        }
                    }
                    assert forall|p: UVec3| p.inside(dims) implies #[trigger] self.occupants(p)
                        == particles_in(coords@, p, (i + 1) as nat) by {
                        if p != cell {
                            assert(self.bucket(p) == old_pg.bucket(p));
                            assert(particles_in(coords@, p, (i + 1) as nat) == particles_in(coords@, p, i));
                            assert(old_pg.occupants(p) == particles_in(coords@, p, i));
                            if old_pg.bucket(p) != EMPTY {
                                assert(self.cells@[old_pg.bucket(p) as int] == old_cells[old_pg.bucket(p) as int]);
                            }
                            assert(self.occupants(p) == old_pg.occupants(p));
                        } else {
                            assert(self.cells@[new_cell_index as int]@ =~= seq![particle_index]);
                            assert(particles_in(coords@, p, i).len() == 0);
                            assert(particles_in(coords@, p, (i + 1) as nat) =~= seq![particle_index]);
                        }
                    }
                    assert forall|b: int| 0 <= b < self.cells@.len() implies #[trigger] self.cells@[b]@.len() > 0 && exists|p: UVec3|
                        p.inside(dims) && #[trigger] self.bucket(p)
                            == b by {
                        if b == new_cell_index {
                            assert(self.bucket(cell) == b);
                        } else {
                            assert(self.cells@[b] == old_cells[b]);
                            assert(old_cells[b]@.len() > 0);
                            let p = choose|p: UVec3|
                                p.inside(dims) && #[trigger] old_pg.bucket(p) == b;
                            assert(self.bucket(p) == b);
                        }
                    }
                }
            } else {
                let ghost b = cell_index as int;
                self.cells[cell_index as usize].push(particle_index);
                proof {
                    assert(self.grid == old_grid);
                    assert(self.cells@.len() == old_cells.len());
                    assert forall|p: UVec3| p.inside(dims) implies #[trigger] self.bucket(p) == EMPTY
                        || self.bucket(p) < self.cells@.len() by {
                        assert(self.bucket(p) == old_pg.bucket(p));
                    }
                    assert forall|p: UVec3| p.inside(dims) implies #[trigger] self.occupants(p)
                        == particles_in(coords@, p, (i + 1) as nat) by {
                        assert(self.bucket(p) == old_pg.bucket(p));
                        assert(old_pg.occupants(p) == particles_in(coords@, p, i));
                        if p != cell {
                            assert(particles_in(coords@, p, (i + 1) as nat) == particles_in(coords@, p, i));
                            if old_pg.bucket(p) == b {
                                assert(old_pg.bucket(p) == old_pg.bucket(cell));
                            }
                            if old_pg.bucket(p) != EMPTY {
                                assert(self.cells@[old_pg.bucket(p) as int] == old_cells[old_pg.bucket(p) as int]);
                            }
                        } else {
                            assert(self.cells@[b]@ =~= old_cells[b]@.push(particle_index));
                        }
                    }
                    assert forall|p: UVec3| p.inside(dims) implies (#[trigger] self.bucket(p) == EMPTY
                        <==> particles_in(coords@, p, (i + 1) as nat).len() == 0) by {
                        assert(self.bucket(p) == old_pg.bucket(p));
                        assert(old_pg.bucket(p) == EMPTY <==> particles_in(coords@, p, i).len() == 0);
                    }
                    assert forall|p: UVec3, q: UVec3|
                        p.inside(dims) && q.inside(dims) && #[trigger] self.bucket(p) != EMPTY
                            && self.bucket(p) == #[trigger] self.bucket(q) implies p == q by {
                        assert(self.bucket(p) == old_pg.bucket(p));
                        assert(self.bucket(q) == old_pg.bucket(q));
                    }
                    assert forall|c: int| 0 <= c < self.cells@.len() implies #[trigger] self.cells@[c]@.len() > 0 && exists|p: UVec3|
                        p.inside(dims) && #[trigger] self.bucket(p) == c by {
                        assert(old_cells[c]@.len() > 0);
                        let p = choose|p: UVec3| p.inside(dims) && #[trigger] old_pg.bucket(p) == c;
                        assert(self.bucket(p) == c);
                        if c == b {
                            assert(self.cells@[b]@ =~= old_cells[b]@.push(particle_index));
                        }
                    }
                    assert forall|c: int, k: int|
                        0 <= c < self.cells@.len() && 0 <= k < self.cells@[c]@.len() implies #[trigger] self.cells@[c]@[k]
                        < particle_index + 1 by {
                        if c != b {
                            assert(self.cells@[c] == old_cells[c]);
                        }
                    }
                    assert forall|c: int, d: int|
                        0 <= c < d < self.cells@.len() implies #[trigger] self.cells@[c]@[0]
                        < #[trigger] self.cells@[d]@[0] by {
                        assert(self.cells@[c]@[0] == old_cells[c]@[0]);
                        assert(self.cells@[d]@[0] == old_cells[d]@[0]);
                    }
                }
            }
            particle_index = particle_index + 1;
        }
        assert(occupied_cells(coords@, dims) =~= occupied);
    }
}

impl ParticleGrid {
    /// The particles of the cells `(x, y, z)` with `z0 <= z < z1`, by increasing `z`.
    pub open spec fn column(self, x: u32, y: u32, z0: int, z1: int) -> Seq<usize>
        decreases z1 - z0,
    {
        if z1 <= z0 {
            seq![]
        } else {
            self.column(x, y, z0, z1 - 1) + self.occupants(UVec3 { x, y, z: (z1 - 1) as u32 })
        }
    }

    /// The particles of the cells `(x, y, z)` with `y0 <= y < y1` and
    /// `z0 <= z < z1`, y-major.
    pub open spec fn plane(self, x: u32, y0: int, y1: int, z0: int, z1: int) -> Seq<usize>
        decreases y1 - y0,
    {
        if y1 <= y0 {
            seq![]
        } else {
            self.plane(x, y0, y1 - 1, z0, z1) + self.column(x, (y1 - 1) as u32, z0, z1)
        }
    }

    /// The particles of the cells `(x, y, z)` with `x0 <= x < x1`,
    /// `y0 <= y < y1` and `z0 <= z < z1`, x-major.
    pub open spec fn block(self, x0: int, x1: int, y0: int, y1: int, z0: int, z1: int) -> Seq<usize>
        decreases x1 - x0,
    {
        if x1 <= x0 {
            seq![]
        } else {
            self.block(x0, x1 - 1, y0, y1, z0, z1) + self.plane((x1 - 1) as u32, y0, y1, z0, z1)
        }
    }

    /// The particles of the cells `p` with `lo <= p < hi` componentwise, in
    /// the order in which the cells are visited: x-major, then y, then z.
    pub open spec fn in_box(self, lo: UVec3, hi: UVec3) -> Seq<usize> {
        self.block(lo.x as int, hi.x as int, lo.y as int, hi.y as int, lo.z as int, hi.z as int)
    }

    /// The particles of every cell `p` with `lo <= p < hi`, cell by cell.
    fn collect_box(&self, lo: UVec3, hi: UVec3) -> (r: Vec<usize>)
        requires
            self.wf(),
            hi.le(self.dims()),
        ensures
            r@ == self.in_box(lo, hi),
    {
        let mut result: Vec<usize> = Vec::new();
        let mut x = lo.x;
        while x < hi.x
            invariant
                self.wf(),
                hi.le(self.dims()),
                lo.x <= x,
                x <= hi.x || x == lo.x,
                result@ == self.block(lo.x as int, x as int, lo.y as int, hi.y as int, lo.z as int, hi.z as int),
            decreases hi.x - x,
        {
            let mut y = lo.y;
            while y < hi.y
                invariant
                    self.wf(),
                    hi.le(self.dims()),
                    lo.x <= x < hi.x,
                    lo.y <= y,
                    y <= hi.y || y == lo.y,
                    result@ == self.block(lo.x as int, x as int, lo.y as int, hi.y as int, lo.z as int, hi.z as int)
                        + self.plane(x, lo.y as int, y as int, lo.z as int, hi.z as int),
                decreases hi.y - y,
            {
                let mut z = lo.z;
                while z < hi.z
                    invariant
                        self.wf(),
                        hi.le(self.dims()),
                        lo.x <= x < hi.x,
                        lo.y <= y < hi.y,
                        lo.z <= z,
                        z <= hi.z || z == lo.z,
                        result@ == self.block(lo.x as int, x as int, lo.y as int, hi.y as int, lo.z as int, hi.z as int)
                            + self.plane(x, lo.y as int, y as int, lo.z as int, hi.z as int)
                            + self.column(x, y, lo.z as int, z as int),
                    decreases hi.z - z,
                {
                    let ghost before = result@;
                    let ghost cell = UVec3 { x, y, z };
                    proof {
                        lemma_inside_reaches(self.grid, cell);
                    }
                    let cell_index = self.grid.get(x, y, z);
                    assert(self.bucket(cell) == cell_index);
                    if cell_index != EMPTY {
                        let bucket = &self.cells[cell_index as usize];
                        let mut k: usize = 0;
                        while k < bucket.len()
                            invariant
                                k <= bucket@.len(),
                                result@ == before + bucket@.subrange(0, k as int),
                            decreases bucket@.len() - k,
                        {
                            result.push(bucket[k]);
                            k = k + 1;
                            assert(result@ =~= before + bucket@.subrange(0, k as int));
                        }
                        assert(bucket@.subrange(0, k as int) =~= bucket@);
                        assert(self.occupants(cell) == bucket@);
                    } else {
                        assert(result@ =~= before + self.occupants(cell));
                    }
                    z = z + 1;
                    assert(result@ =~= self.block(lo.x as int, x as int, lo.y as int, hi.y as int, lo.z as int, hi.z as int)
                        + self.plane(x, lo.y as int, y as int, lo.z as int, hi.z as int)
                        + self.column(x, y, lo.z as int, z as int));
                }
                assert(self.column(x, y, lo.z as int, z as int) == self.column(x, y, lo.z as int, hi.z as int));
                y = y + 1;
                assert(result@ =~= self.block(lo.x as int, x as int, lo.y as int, hi.y as int, lo.z as int, hi.z as int)
                    + self.plane(x, lo.y as int, y as int, lo.z as int, hi.z as int));
            }
            assert(self.plane(x, lo.y as int, y as int, lo.z as int, hi.z as int) == self.plane(x, lo.y as int, hi.y as int, lo.z as int, hi.z as int));
            x = x + 1;
            assert(result@ =~= self.block(lo.x as int, x as int, lo.y as int, hi.y as int, lo.z as int, hi.z as int));
        }
        result
    }

    /// The particles of the cells within `n` of `index` along every axis,
    /// clipped to the domain.
    pub open spec fn cell_neighbor_list(self, index: UVec3, n: UVec3) -> Seq<usize> {
        self.in_box(index.sat_sub(n), index.plus(n).min_with(self.dims().dec()).inc())
    }

    /// The particles of the cells at most `e` below `index` and less than `e`
    /// above it along every axis, clipped to the domain.
    pub open spec fn wall_neighbor_list(self, index: UVec3, e: UVec3) -> Seq<usize> {
        self.in_box(index.sat_sub(e), index.plus(e).min_with(self.dims()))
    }

    /// The particles of the cells within `number_of_neighbors` of `index`
    /// along every axis, clipped to the domain: cell by cell, x-major, each
    /// cell's particles in its bucket's order.
    pub fn cell_neighbors(&self, index: UVec3, number_of_neighbors: UVec3) -> (r: Vec<usize>)
        requires
            self.wf(),
            self.dims().positive(),
            index.sum_fits(number_of_neighbors),
        ensures
            r@ == self.cell_neighbor_list(index, number_of_neighbors),
    {
        let minimum = index.saturating_sub(number_of_neighbors);
        let end = index.sum(number_of_neighbors).component_min(self.dimensions.minus_one());
        let upper = UVec3::new(end.x + 1, end.y + 1, end.z + 1);
        self.collect_box(minimum, upper)
    }

    /// The particles of the cells `p` with `index - extent <= p < index + extent`
    /// (the lower end stopping at zero, the upper end at the extent of the
    /// domain): cell by cell, x-major, each cell's particles in its bucket's order.
    pub fn wall_neighbors(&self, index: UVec3, extent: UVec3) -> (r: Vec<usize>)
        requires
            self.wf(),
            index.sum_fits(extent),
        ensures
            r@ == self.wall_neighbor_list(index, extent),
    {
        let minimum = index.saturating_sub(extent);
        let end = index.sum(extent).component_min(self.dimensions);
        self.collect_box(minimum, end)
    }
}

/// Some particle among `occupants` has type `t`.
pub open spec fn holds_type(occupants: Seq<usize>, types: Seq<ParticleType>, t: ParticleType) -> bool {
    exists|k: int| 0 <= k < occupants.len() && types[#[trigger] occupants[k] as int] == t
}

/// The kind of a cell whose particles are `occupants`: solid if one of them
/// is solid, otherwise fluid if one of them is fluid, otherwise air.
pub open spec fn cell_kind(occupants: Seq<usize>, types: Seq<ParticleType>) -> CellType {
    if holds_type(occupants, types, ParticleType::Solid) {
        CellType::Solid
    } else if holds_type(occupants, types, ParticleType::Fluid) {
        CellType::Fluid
    } else {
        CellType::Air
    }
}

/// Whether one of the particles `indices` has type `t`.
fn any_of_type(indices: &Vec<usize>, types: &[ParticleType], t: ParticleType) -> (r: bool)
    requires
        forall|k: int| 0 <= k < indices@.len() ==> #[trigger] indices@[k] < types@.len(),
    ensures
        r == holds_type(indices@, types@, t),
{
    let mut k: usize = 0;
    while k < indices.len()
        invariant
            k <= indices@.len(),
            forall|j: int| 0 <= j < indices@.len() ==> #[trigger] indices@[j] < types@.len(),
            forall|j: int| 0 <= j < k ==> types@[#[trigger] indices@[j] as int] != t,
        decreases indices@.len() - k,
    {
        if types[indices[k]] == t {
            assert(types@[indices@[k as int] as int] == t);
            return true;
        }
        k = k + 1;
    }
    false
}

impl ParticleGrid {
    /// Writes into `cell_types` the kind of every cell, judged by the types of
    /// the particles in its bucket.
    pub fn mark_cell_types(&self, particle_types: &[ParticleType], cell_types: &mut Grid3D<CellType>)
        requires
            self.wf(),
            old(cell_types).wf(),
            old(cell_types).dims() == self.dims(),
            forall|p: UVec3, k: int|
                p.inside(self.dims()) && 0 <= k < self.occupants(p).len() ==> #[trigger] self.occupants(p)[k]
                    < particle_types@.len(),
        ensures
            final(cell_types).wf(),
            final(cell_types).dims() == old(cell_types).dims(),
            final(cell_types).fill_value() == old(cell_types).fill_value(),
            forall|p: UVec3|
                p.inside(self.dims()) ==> #[trigger] final(cell_types).at_cell(p) == cell_kind(
                    self.occupants(p),
                    particle_types@,
                ),
    {
        let dimensions = self.dimensions;
        let mut x: u32 = 0;
        while x < dimensions.x
            invariant
                self.wf(),
                dimensions == self.dims(),
                cell_types.wf(),
                cell_types.dims() == dimensions,
                cell_types.fill_value() == old(cell_types).fill_value(),
                forall|p: UVec3, k: int|
                    p.inside(self.dims()) && 0 <= k < self.occupants(p).len() ==> #[trigger] self.occupants(p)[k]
                        < particle_types@.len(),
                x <= dimensions.x,
                forall|p: UVec3|
                    p.inside(dimensions) && p.x < x ==> #[trigger] cell_types.at_cell(p) == cell_kind(
                        self.occupants(p),
                        particle_types@,
                    ),
            decreases dimensions.x - x,
        {
            let mut y: u32 = 0;
            while y < dimensions.y
                invariant
                    self.wf(),
                    dimensions == self.dims(),
                    cell_types.wf(),
                    cell_types.dims() == dimensions,
                    cell_types.fill_value() == old(cell_types).fill_value(),
                    forall|p: UVec3, k: int|
                        p.inside(self.dims()) && 0 <= k < self.occupants(p).len() ==> #[trigger] self.occupants(p)[k]
                            < particle_types@.len(),
                    x < dimensions.x,
                    y <= dimensions.y,
                    forall|p: UVec3|
                        p.inside(dimensions) && (p.x < x || (p.x == x && p.y < y)) ==> #[trigger] cell_types.at_cell(
                            p,
                        ) == cell_kind(self.occupants(p), particle_types@),
                decreases dimensions.y - y,
            {
                let mut z: u32 = 0;
                while z < dimensions.z
                    invariant
                        self.wf(),
                        dimensions == self.dims(),
                        cell_types.wf(),
                        cell_types.dims() == dimensions,
                        cell_types.fill_value() == old(cell_types).fill_value(),
                        forall|p: UVec3, k: int|
                            p.inside(self.dims()) && 0 <= k < self.occupants(p).len() ==> #[trigger] self.occupants(p)[k]
                                < particle_types@.len(),
                        x < dimensions.x,
                        y < dimensions.y,
                        z <= dimensions.z,
                        forall|p: UVec3|
                            p.inside(dimensions) && (p.x < x || (p.x == x && p.y < y) || (p.x == x && p.y == y
                                && p.z < z)) ==> #[trigger] cell_types.at_cell(p) == cell_kind(
                                self.occupants(p),
                                particle_types@,
                            ),
                    decreases dimensions.z - z,
                {
                    let ghost cell = UVec3 { x, y, z };
                    proof {
                        lemma_inside_reaches(self.grid, cell);
                    }
                    let cell_index = self.grid.get(x, y, z);
                    assert(self.bucket(cell) == cell_index);
                    let cell_type = if cell_index == EMPTY {
                        CellType::Air
                    } else {
                        let particle_indices = &self.cells[cell_index as usize];
                        assert(self.occupants(cell) == particle_indices@);
                        assert forall|k: int| 0 <= k < particle_indices@.len() implies #[trigger] particle_indices@[k]
                            < particle_types@.len() by {
                            assert(self.occupants(cell)[k] < particle_types@.len());
                        }
                        let contains_solid = any_of_type(particle_indices, particle_types, ParticleType::Solid);
                        let contains_fluid = any_of_type(particle_indices, particle_types, ParticleType::Fluid);
                        if contains_solid {
                            CellType::Solid
                        } else if contains_fluid {
                            CellType::Fluid
                        } else {
                            CellType::Air
                        }
                    };
                    assert(cell_type == cell_kind(self.occupants(cell), particle_types@));
                    let ghost before = *cell_types;
                    proof {
                        lemma_inside_reaches(*cell_types, cell);
                    }
                    cell_types.set(x, y, z, cell_type);
                    proof {
                        assert forall|p: UVec3|
                            p.inside(dimensions) && (p.x < x || (p.x == x && p.y < y) || (p.x == x && p.y
                                == y && p.z < z + 1)) implies #[trigger] cell_types.at_cell(p) == cell_kind(
                            self.occupants(p),
                            particle_types@,
                        ) by {
                            lemma_write_then_read(before, *cell_types, cell, p, cell_type);
                        }
                    }
                    z = z + 1;
                }
                y = y + 1;
            }
            x = x + 1;
        }
    }
}

/// A value lies in a concatenation exactly when it lies in one of the parts.
proof fn lemma_concat_contains(a: Seq<usize>, b: Seq<usize>, v: usize)
    ensures
        (a + b).contains(v) <==> (a.contains(v) || b.contains(v)),
{
    if (a + b).contains(v) {
        let k = choose|k: int| 0 <= k < (a + b).len() && #[trigger] (a + b)[k] == v;
        if k < a.len() {
            assert(a[k] == v);
        } else {
            assert(b[k - a.len()] == v);
        }
    }
    if a.contains(v) {
        let k = choose|k: int| 0 <= k < a.len() && #[trigger] a[k] == v;
        assert((a + b)[k] == v);
    }
    if b.contains(v) {
        let k = choose|k: int| 0 <= k < b.len() && #[trigger] b[k] == v;
        assert((a + b)[k + a.len()] == v);
    }
}

/// After sorting, cell `p` holds particle `i` exactly when `coords[i] == p`.
proof fn lemma_occupant(g: ParticleGrid, coords: Seq<UVec3>, p: UVec3, i: usize)
    requires
        g.sorted(coords),
        coords.len() <= usize::MAX,
        p.inside(g.dims()),
    ensures
        g.occupants(p).contains(i) <==> (i < coords.len() && coords[i as int] == p),
{
    assert(g.occupants(p) == particles_in(coords, p, coords.len()));
    lemma_particles_in_contains(coords, p, coords.len(), i);
}

proof fn lemma_column_members(
    g: ParticleGrid,
    coords: Seq<UVec3>,
    x: u32,
    y: u32,
    z0: int,
    z1: int,
    i: usize,
)
    requires
        g.sorted(coords),
        coords.len() <= usize::MAX,
        x < g.dims().x,
        y < g.dims().y,
        0 <= z0,
        z1 <= g.dims().z,
    ensures
        g.column(x, y, z0, z1).contains(i) <==> (i < coords.len() && coords[i as int].x == x
            && coords[i as int].y == y && z0 <= coords[i as int].z < z1),
    decreases z1 - z0,
{
    if z1 > z0 {
        lemma_column_members(g, coords, x, y, z0, z1 - 1, i);
        let p = UVec3 { x, y, z: (z1 - 1) as u32 };
        lemma_occupant(g, coords, p, i);
        lemma_concat_contains(g.column(x, y, z0, z1 - 1), g.occupants(p), i);
    }
}

proof fn lemma_plane_members(
    g: ParticleGrid,
    coords: Seq<UVec3>,
    x: u32,
    y0: int,
    y1: int,
    z0: int,
    z1: int,
    i: usize,
)
    requires
        g.sorted(coords),
        coords.len() <= usize::MAX,
        x < g.dims().x,
        0 <= y0,
        y1 <= g.dims().y,
        0 <= z0,
        z1 <= g.dims().z,
    ensures
        g.plane(x, y0, y1, z0, z1).contains(i) <==> (i < coords.len() && coords[i as int].x == x
            && y0 <= coords[i as int].y < y1 && z0 <= coords[i as int].z < z1),
    decreases y1 - y0,
{
    if y1 > y0 {
        lemma_plane_members(g, coords, x, y0, y1 - 1, z0, z1, i);
        lemma_column_members(g, coords, x, (y1 - 1) as u32, z0, z1, i);
        lemma_concat_contains(g.plane(x, y0, y1 - 1, z0, z1), g.column(x, (y1 - 1) as u32, z0, z1), i);
    }
}

proof fn lemma_block_members(
    g: ParticleGrid,
    coords: Seq<UVec3>,
    x0: int,
    x1: int,
    y0: int,
    y1: int,
    z0: int,
    z1: int,
    i: usize,
)
    requires
        g.sorted(coords),
        coords.len() <= usize::MAX,
        0 <= x0,
        x1 <= g.dims().x,
        0 <= y0,
        y1 <= g.dims().y,
        0 <= z0,
        z1 <= g.dims().z,
    ensures
        g.block(x0, x1, y0, y1, z0, z1).contains(i) <==> (i < coords.len() && x0 <= coords[i as int].x
            < x1 && y0 <= coords[i as int].y < y1 && z0 <= coords[i as int].z < z1),
    decreases x1 - x0,
{
    if x1 > x0 {
        lemma_block_members(g, coords, x0, x1 - 1, y0, y1, z0, z1, i);
        lemma_plane_members(g, coords, (x1 - 1) as u32, y0, y1, z0, z1, i);
        lemma_concat_contains(
            g.block(x0, x1 - 1, y0, y1, z0, z1),
            g.plane((x1 - 1) as u32, y0, y1, z0, z1),
            i,
        );
    }
}

/// Joining two sequences without repeats that share no value gives a
/// sequence without repeats.
proof fn lemma_concat_no_duplicates(a: Seq<usize>, b: Seq<usize>)
    requires
        a.no_duplicates(),
        b.no_duplicates(),
        forall|v: usize| a.contains(v) ==> !b.contains(v),
    ensures
        (a + b).no_duplicates(),
{
    let c = a + b;
    assert forall|i: int, j: int| 0 <= i < c.len() && 0 <= j < c.len() && i != j implies c[i] != c[j] by {
        if i < a.len() && j >= a.len() {
            assert(a.contains(c[i]));
            assert(b[j - a.len()] == c[j]);
        } else if j < a.len() && i >= a.len() {
            assert(a.contains(c[j]));
            assert(b[i - a.len()] == c[i]);
        } else if i < a.len() {
            assert(c[i] == a[i] && c[j] == a[j]);
        } else {
            assert(c[i] == b[i - a.len()] && c[j] == b[j - a.len()]);
        }
    }
}

proof fn lemma_occupants_no_duplicates(g: ParticleGrid, coords: Seq<UVec3>, p: UVec3)
    requires
        g.sorted(coords),
        coords.len() <= usize::MAX,
        p.inside(g.dims()),
    ensures
        g.occupants(p).no_duplicates(),
{
    lemma_particles_in_sorted(coords, p, coords.len());
    assert(g.occupants(p) == particles_in(coords, p, coords.len()));
}

proof fn lemma_column_no_duplicates(g: ParticleGrid, coords: Seq<UVec3>, x: u32, y: u32, z0: int, z1: int)
    requires
        g.sorted(coords),
        coords.len() <= usize::MAX,
        x < g.dims().x,
        y < g.dims().y,
        0 <= z0,
        z1 <= g.dims().z,
    ensures
        g.column(x, y, z0, z1).no_duplicates(),
    decreases z1 - z0,
{
    if z1 > z0 {
        lemma_column_no_duplicates(g, coords, x, y, z0, z1 - 1);
        let p = UVec3 { x, y, z: (z1 - 1) as u32 };
        lemma_occupants_no_duplicates(g, coords, p);
        assert forall|v: usize| g.column(x, y, z0, z1 - 1).contains(v) implies !g.occupants(p).contains(v) by {
            lemma_column_members(g, coords, x, y, z0, z1 - 1, v);
            lemma_occupant(g, coords, p, v);
        }
        lemma_concat_no_duplicates(g.column(x, y, z0, z1 - 1), g.occupants(p));
    }
}

proof fn lemma_plane_no_duplicates(
    g: ParticleGrid,
    coords: Seq<UVec3>,
    x: u32,
    y0: int,
    y1: int,
    z0: int,
    z1: int,
)
    requires
        g.sorted(coords),
        coords.len() <= usize::MAX,
        x < g.dims().x,
        0 <= y0,
        y1 <= g.dims().y,
        0 <= z0,
        z1 <= g.dims().z,
    ensures
        g.plane(x, y0, y1, z0, z1).no_duplicates(),
    decreases y1 - y0,
{
    if y1 > y0 {
        let y = (y1 - 1) as u32;
        lemma_plane_no_duplicates(g, coords, x, y0, y1 - 1, z0, z1);
        lemma_column_no_duplicates(g, coords, x, y, z0, z1);
        assert forall|v: usize| g.plane(x, y0, y1 - 1, z0, z1).contains(v) implies !g.column(
            x,
            y,
            z0,
            z1,
        ).contains(v) by {
            lemma_plane_members(g, coords, x, y0, y1 - 1, z0, z1, v);
            lemma_column_members(g, coords, x, y, z0, z1, v);
        }
        lemma_concat_no_duplicates(g.plane(x, y0, y1 - 1, z0, z1), g.column(x, y, z0, z1));
    }
}

proof fn lemma_block_no_duplicates(
    g: ParticleGrid,
    coords: Seq<UVec3>,
    x0: int,
    x1: int,
    y0: int,
    y1: int,
    z0: int,
    z1: int,
)
    requires
        g.sorted(coords),
        coords.len() <= usize::MAX,
        0 <= x0,
        x1 <= g.dims().x,
        0 <= y0,
        y1 <= g.dims().y,
        0 <= z0,
        z1 <= g.dims().z,
    ensures
        g.block(x0, x1, y0, y1, z0, z1).no_duplicates(),
    decreases x1 - x0,
{
    if x1 > x0 {
        let x = (x1 - 1) as u32;
        lemma_block_no_duplicates(g, coords, x0, x1 - 1, y0, y1, z0, z1);
        lemma_plane_no_duplicates(g, coords, x, y0, y1, z0, z1);
        assert forall|v: usize| g.block(x0, x1 - 1, y0, y1, z0, z1).contains(v) implies !g.plane(
            x,
            y0,
            y1,
            z0,
            z1,
        ).contains(v) by {
            lemma_block_members(g, coords, x0, x1 - 1, y0, y1, z0, z1, v);
            lemma_plane_members(g, coords, x, y0, y1, z0, z1, v);
        }
        lemma_concat_no_duplicates(g.block(x0, x1 - 1, y0, y1, z0, z1), g.plane(x, y0, y1, z0, z1));
    }
}

/// Once the particles are sorted by their cells, a box query lists no
/// particle twice.
pub proof fn lemma_box_lists_each_particle_once(g: ParticleGrid, coords: Seq<UVec3>, lo: UVec3, hi: UVec3)
    requires
        g.sorted(coords),
        coords.len() <= usize::MAX,
        hi.le(g.dims()),
    ensures
        g.in_box(lo, hi).no_duplicates(),
{
    lemma_block_no_duplicates(
        g,
        coords,
        lo.x as int,
        hi.x as int,
        lo.y as int,
        hi.y as int,
        lo.z as int,
        hi.z as int,
    );
}

/// Once the particles are sorted by their cells, a box query finds exactly
/// the particles whose cells lie in the box: particle `i` is among the
/// particles of the cells `lo <= p < hi` if and only if `lo <= coords[i] < hi`.
pub proof fn lemma_box_finds_exactly_the_particles_in_it(
    g: ParticleGrid,
    coords: Seq<UVec3>,
    lo: UVec3,
    hi: UVec3,
    i: usize,
)
    requires
        g.sorted(coords),
        coords.len() <= usize::MAX,
        hi.le(g.dims()),
    ensures
        g.in_box(lo, hi).contains(i) <==> (i < coords.len() && lo.le(coords[i as int])
            && coords[i as int].x < hi.x && coords[i as int].y < hi.y && coords[i as int].z < hi.z),
{
    lemma_block_members(
        g,
        coords,
        lo.x as int,
        hi.x as int,
        lo.y as int,
        hi.y as int,
        lo.z as int,
        hi.z as int,
        i,
    );
}

/// After sorting, every particle a cell holds is one of the sorted particles.
pub proof fn lemma_sorted_occupants_in_range(g: ParticleGrid, coords: Seq<UVec3>, p: UVec3, k: int)
    requires
        g.sorted(coords),
        coords.len() <= usize::MAX,
        p.inside(g.dims()),
        0 <= k < g.occupants(p).len(),
    ensures
        g.occupants(p)[k] < coords.len(),
        coords[g.occupants(p)[k] as int] == p,
{
    let i = g.occupants(p)[k];
    assert(g.occupants(p).contains(i));
    lemma_occupant(g, coords, p, i);
}

/// Once the particles are sorted by their cells, `cell_neighbors(index, n)`
/// lists particle `i` exactly when its cell lies within `n` of `index` along
/// every axis.
pub proof fn lemma_cell_neighbors_within_reach(
    g: ParticleGrid,
    coords: Seq<UVec3>,
    index: UVec3,
    n: UVec3,
    i: usize,
)
    requires
        g.sorted(coords),
        coords.len() <= usize::MAX,
        g.dims().positive(),
        index.sum_fits(n),
        forall|k: int| 0 <= k < coords.len() ==> #[trigger] coords[k].inside(g.dims()),
    ensures
        g.cell_neighbor_list(index, n).contains(i) <==> (i
            < coords.len() && index.x - n.x <= coords[i as int].x <= index.x + n.x && index.y - n.y
            <= coords[i as int].y <= index.y + n.y && index.z - n.z <= coords[i as int].z <= index.z + n.z),
{
    let lo = index.sat_sub(n);
    let hi = index.plus(n).min_with(g.dims().dec()).inc();
    let d = g.dims();
    assert(lo.x == (if index.x >= n.x { index.x - n.x } else { 0 }));
    assert(lo.y == (if index.y >= n.y { index.y - n.y } else { 0 }));
    assert(lo.z == (if index.z >= n.z { index.z - n.z } else { 0 }));
    assert(hi.x == (if index.x + n.x <= d.x - 1 { index.x + n.x } else { d.x - 1 }) + 1);
    assert(hi.y == (if index.y + n.y <= d.y - 1 { index.y + n.y } else { d.y - 1 }) + 1);
    assert(hi.z == (if index.z + n.z <= d.z - 1 { index.z + n.z } else { d.z - 1 }) + 1);
    lemma_box_finds_exactly_the_particles_in_it(g, coords, lo, hi, i);
    if i < coords.len() {
        assert(coords[i as int].inside(d));
    }
}

/// Once the particles are sorted by their cells, `wall_neighbors(index, e)`
/// lists particle `i` exactly when its cell lies at most `e` below `index`
/// and less than `e` above it along every axis.
pub proof fn lemma_wall_neighbors_within_reach(
    g: ParticleGrid,
    coords: Seq<UVec3>,
    index: UVec3,
    e: UVec3,
    i: usize,
)
    requires
        g.sorted(coords),
        coords.len() <= usize::MAX,
        index.sum_fits(e),
        forall|k: int| 0 <= k < coords.len() ==> #[trigger] coords[k].inside(g.dims()),
    ensures
        g.wall_neighbor_list(index, e).contains(i) <==> (i < coords.len()
            && index.x - e.x <= coords[i as int].x < index.x + e.x && index.y - e.y <= coords[i as int].y
            < index.y + e.y && index.z - e.z <= coords[i as int].z < index.z + e.z),
{
    let lo = index.sat_sub(e);
    let hi = index.plus(e).min_with(g.dims());
    let d = g.dims();
    assert(lo.x == (if index.x >= e.x { index.x - e.x } else { 0 }));
    assert(lo.y == (if index.y >= e.y { index.y - e.y } else { 0 }));
    assert(lo.z == (if index.z >= e.z { index.z - e.z } else { 0 }));
    assert(hi.x == (if index.x + e.x <= d.x { index.x + e.x } else { d.x as int }));
    assert(hi.y == (if index.y + e.y <= d.y { index.y + e.y } else { d.y as int }));
    assert(hi.z == (if index.z + e.z <= d.z { index.z + e.z } else { d.z as int }));
    lemma_box_finds_exactly_the_particles_in_it(g, coords, lo, hi, i);
    if i < coords.len() {
        assert(coords[i as int].inside(d));
    }
}

/// Once the particles are sorted by their cells, each particle lies in
/// exactly one bucket, the bucket of its own cell, and appears there once.
pub proof fn lemma_each_particle_in_one_bucket(g: ParticleGrid, coords: Seq<UVec3>, i: usize)
    requires
        g.sorted(coords),
        coords.len() <= usize::MAX,
        i < coords.len(),
        coords[i as int].inside(g.dims()),
    ensures
        g.bucket(coords[i as int]) != EMPTY,
        g.bucket(coords[i as int]) < g.buckets().len(),
        forall|b: int|
            0 <= b < g.buckets().len() ==> (#[trigger] g.buckets()[b].contains(i) <==> b == g.bucket(
                coords[i as int],
            )),
        g.buckets()[g.bucket(coords[i as int]) as int].no_duplicates(),
{
    let p = coords[i as int];
    lemma_particles_in_contains(coords, p, coords.len(), i);
    assert(particles_in(coords, p, coords.len()).len() > 0);
    assert(g.occupants(p) == particles_in(coords, p, coords.len()));
    lemma_particles_in_sorted(coords, p, coords.len());
    assert forall|b: int| 0 <= b < g.buckets().len() implies (#[trigger] g.buckets()[b].contains(i) <==> b
        == g.bucket(p)) by {
        assert(g.buckets()[b].len() > 0);
        let q = choose|q: UVec3| q.inside(g.dims()) && #[trigger] g.bucket(q) == b;
        assert(g.occupants(q) == g.buckets()[b]);
        lemma_occupant(g, coords, q, i);
    }
}

/// Some particle of cell `p` has type `t`, judged from the particles' cells.
pub open spec fn cell_has_type(coords: Seq<UVec3>, types: Seq<ParticleType>, p: UVec3, t: ParticleType) -> bool {
    exists|i: int| 0 <= i < coords.len() && #[trigger] coords[i] == p && types[i] == t
}

/// Once the particles are sorted by their cells, marking the cells gives a
/// cell the kind that its particles call for: solid when one of the
/// particles in it is solid, otherwise fluid when one is fluid, otherwise air.
pub proof fn lemma_marked_kind_follows_particles(
    g: ParticleGrid,
    coords: Seq<UVec3>,
    types: Seq<ParticleType>,
    p: UVec3,
)
    requires
        g.sorted(coords),
        coords.len() <= usize::MAX,
        types.len() == coords.len(),
        p.inside(g.dims()),
    ensures
        cell_kind(g.occupants(p), types) == (if cell_has_type(coords, types, p, ParticleType::Solid) {
            CellType::Solid
        } else if cell_has_type(coords, types, p, ParticleType::Fluid) {
            CellType::Fluid
        } else {
            CellType::Air
        }),
{
    assert forall|t: ParticleType| holds_type(g.occupants(p), types, t) == cell_has_type(coords, types, p, t) by {
        if holds_type(g.occupants(p), types, t) {
            let k = choose|k: int| 0 <= k < g.occupants(p).len() && types[#[trigger] g.occupants(p)[k] as int] == t;
            lemma_sorted_occupants_in_range(g, coords, p, k);
            let i = g.occupants(p)[k] as int;
            assert(coords[i] == p && types[i] == t);
        }
        if cell_has_type(coords, types, p, t) {
            let i = choose|i: int| 0 <= i < coords.len() && #[trigger] coords[i] == p && types[i] == t;
            lemma_occupant(g, coords, p, i as usize);
            let k = choose|k: int| 0 <= k < g.occupants(p).len() && g.occupants(p)[k] == i as usize;
            assert(types[g.occupants(p)[k] as int] == t);
        }
    }
}

} // verus!
