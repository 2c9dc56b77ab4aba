//! The broad phase: a uniform grid over the world, rebuilt every frame.
//! Bodies are binned by cell; candidate pairs come from scanning the 3x3
//! neighborhood of each occupied cell.  The grid is a cache, never a
//! source of truth.

use vstd::prelude::*;
use vstd::pervasive::VecAdditionalExecFns;
use vstd::arithmetic::div_mod::{
    lemma_div_by_self, lemma_div_is_ordered, lemma_div_plus_one, lemma_multiply_divide_lt,
};

use crate::body::{touches, touching, Body};
use crate::fixed::{FX_MAX, FX_ONE};
use crate::vec2::Vec2;

verus! {

/// Cells needed to cover `extent` at `cell_size` per cell: the quotient
/// rounded up.
pub open spec fn ceil_div(extent: int, cell_size: int) -> int {
    (extent + cell_size - 1) / cell_size
}

/// Grid cell coordinate of one axis value.
pub open spec fn cell_coord(v: int, cell_size: int) -> int {
    v / cell_size
}

pub struct SpatialGrid {
    pub cell_size: i64,
    pub nx: usize,
    pub ny: usize,
    /// Flattened cells in row-major order: cell (cx, cy) is entry
    /// `cx * ny + cy`, a list of body indices.
    pub cells: Vec<Vec<usize>>,
}

impl SpatialGrid {
    pub open spec fn ok(self) -> bool {
        &&& FX_ONE <= self.cell_size <= FX_MAX
        &&& 1 <= self.nx <= 1_000_000
        &&& 1 <= self.ny <= 1_000_000
        &&& self.nx * self.ny <= 100_000_000
        &&& self.cells@.len() == self.nx * self.ny
    }

    /// Flat index of cell (cx, cy).
    pub open spec fn idx(self, cx: int, cy: int) -> int {
        cx * self.ny + cy
    }

    /// The ids binned in cell (cx, cy).
    pub open spec fn cell_ids(self, cx: int, cy: int) -> Seq<usize> {
        self.cells@[self.idx(cx, cy)]@
    }

    /// Entry `t` of flat cell `k` names a live, in-band body whose
    /// position bins back to exactly that cell.
    pub open spec fn entry_ok(self, bodies: Seq<Body>, k: int, t: int) -> bool {
        let id = self.cells@[k]@[t] as int;
        &&& id < bodies.len()
        &&& bodies[id].ok()
        &&& 0 <= bodies[id].pos.x
        &&& 0 <= bodies[id].pos.y
        &&& cell_coord(bodies[id].pos.x as int, self.cell_size as int) < self.nx
        &&& cell_coord(bodies[id].pos.y as int, self.cell_size as int) < self.ny
        &&& self.idx(
            cell_coord(bodies[id].pos.x as int, self.cell_size as int),
            cell_coord(bodies[id].pos.y as int, self.cell_size as int),
        ) == k
    }

    /// Every binned id is below `n`.
    pub open spec fn ids_below(self, n: int) -> bool {
        forall|k: int, t: int|
            0 <= k < self.cells@.len() && 0 <= t < self.cells@[k]@.len() ==> (
            #[trigger] self.cells@[k]@[t]) < n
    }

    /// Every binned id is consistent with the body list.
    pub open spec fn wf_for(self, bodies: Seq<Body>) -> bool {
        forall|k: int, t: int|
            0 <= k < self.cells@.len() && 0 <= t < self.cells@[k]@.len() ==> #[trigger] self
                .entry_ok(bodies, k, t)
    }

    /// Build an empty grid of `ceil(width / cell_size)` by
    /// `ceil(height / cell_size)` cells.
    pub fn new(width: i64, height: i64, cell_size: i64) -> (r: SpatialGrid)
        requires
            4 * FX_ONE <= width <= 1_000_000_000,
            4 * FX_ONE <= height <= 1_000_000_000,
            FX_ONE <= cell_size <= FX_MAX,
            ceil_div(width as int, cell_size as int) * ceil_div(height as int, cell_size as int)
                <= 100_000_000,
        ensures
            r.ok(),
            r.cell_size == cell_size,
            r.nx == ceil_div(width as int, cell_size as int),
            r.ny == ceil_div(height as int, cell_size as int),
            forall|k: int| 0 <= k < r.cells@.len() ==> #[trigger] r.cells@[k]@ =~= Seq::empty(),
    {
        proof {
            lemma_dims(width as int, cell_size as int);
            lemma_dims(height as int, cell_size as int);
        }
        let nxw: u64 = ((width + cell_size - 1) as u64) / (cell_size as u64);
        let nyw: u64 = ((height + cell_size - 1) as u64) / (cell_size as u64);
        let nx: usize = nxw as usize;
        let ny: usize = nyw as usize;
        let total: usize = nx * ny;
        let mut cells: Vec<Vec<usize>> = Vec::new();
        let mut k: usize = 0;
        while k < total
            invariant
                k <= total,
                cells@.len() == k,
                forall|j: int| 0 <= j < k ==> #[trigger] cells@[j]@ =~= Seq::empty(),
            decreases total - k,
        {
            cells.push(Vec::new());
            k = k + 1;
        }
        SpatialGrid { cell_size, nx, ny, cells }
    }

    /// Empty every cell.
    pub fn reset(&mut self)
        requires
            old(self).ok(),
        ensures
            final(self).ok(),
            final(self).cell_size == old(self).cell_size,
            final(self).nx == old(self).nx,
            final(self).ny == old(self).ny,
            final(self).cells@.len() == old(self).cells@.len(),
            forall|k: int|
                0 <= k < final(self).cells@.len() ==> #[trigger] final(self).cells@[k]@
                    =~= Seq::empty(),
    {
        let n: usize = self.cells.len();
        let mut k: usize = 0;
        while k < n
            invariant
                k <= n,
                self.cells@.len() == n,
                self.cell_size == old(self).cell_size,
                self.nx == old(self).nx,
                self.ny == old(self).ny,
                forall|j: int| 0 <= j < k ==> #[trigger] self.cells@[j]@ =~= Seq::empty(),
            decreases n - k,
        {
            self.cells.set(k, Vec::new());
            k = k + 1;
        }
    }

    /// Bin one body index by its position.
    pub fn insert(&mut self, pos: Vec2, id: usize)
        requires
            old(self).ok(),
            0 <= pos.x,
            0 <= pos.y,
            cell_coord(pos.x as int, old(self).cell_size as int) < old(self).nx,
            cell_coord(pos.y as int, old(self).cell_size as int) < old(self).ny,
        ensures
            final(self).ok(),
            final(self).cell_size == old(self).cell_size,
            final(self).nx == old(self).nx,
            final(self).ny == old(self).ny,
            final(self).cells@.len() == old(self).cells@.len(),
            ({
                let k = old(self).idx(
                    cell_coord(pos.x as int, old(self).cell_size as int),
                    cell_coord(pos.y as int, old(self).cell_size as int),
                );
                &&& final(self).cells@[k]@ == old(self).cells@[k]@.push(id)
                &&& (forall|j: int|
                    0 <= j < old(self).cells@.len() && j != k ==> final(self).cells@[j] == old(
                        self,
                    ).cells@[j])
            }),
    {
        let cx: usize = (((pos.x as u64) / (self.cell_size as u64)) as usize);
        let cy: usize = (((pos.y as u64) / (self.cell_size as u64)) as usize);
        proof {
            lemma_idx_bound(cx as int, cy as int, self.nx as int, self.ny as int);
        }
        let k: usize = cx * self.ny + cy;
        let mut cell: Vec<usize> = Vec::new();
        self.cells.set_and_swap(k, &mut cell);
        cell.push(id);
        self.cells.set_and_swap(k, &mut cell);
    }

    /// `id` is binned in the cell its position maps to, and that cell
    /// lies inside the grid.
    pub open spec fn binned(self, bodies: Seq<Body>, id: int) -> bool {
        let cx = cell_coord(bodies[id].pos.x as int, self.cell_size as int);
        let cy = cell_coord(bodies[id].pos.y as int, self.cell_size as int);
        &&& 0 <= id < bodies.len()
        &&& 0 <= cx < self.nx
        &&& 0 <= cy < self.ny
        &&& self.cell_ids(cx, cy).contains(id as usize)
    }

    /// The position cells of `i` and `j` are at most one apart per axis.
    pub open spec fn near(self, bodies: Seq<Body>, i: int, j: int) -> bool {
        let cxi = cell_coord(bodies[i].pos.x as int, self.cell_size as int);
        let cyi = cell_coord(bodies[i].pos.y as int, self.cell_size as int);
        let cxj = cell_coord(bodies[j].pos.x as int, self.cell_size as int);
        let cyj = cell_coord(bodies[j].pos.y as int, self.cell_size as int);
        &&& -1 <= cxj - cxi <= 1
        &&& -1 <= cyj - cyi <= 1
    }

    /// A directed pair the scan owes its caller: both bodies binned,
    /// distinct, in neighboring cells, and overlapping.
    pub open spec fn must_emit(self, bodies: Seq<Body>, i: int, j: int) -> bool {
        &&& self.binned(bodies, i)
        &&& self.binned(bodies, j)
        &&& i != j
        &&& self.near(bodies, i, j)
        &&& touching(bodies[i], bodies[j])
    }

    /// Scan the 3x3 neighborhood of `id`'s own cell and push a pair for
    /// every distinct overlapping id found there.
    #[verifier::rlimit(60)]
    fn scan_neighborhood(&self, bodies: &Vec<Body>, id: usize, out: &mut Vec<(usize, usize)>)
        requires
            self.ok(),
            self.wf_for(bodies@),
            self.binned(bodies@, id as int),
            bodies@[id as int].ok(),
            0 <= bodies@[id as int].pos.x,
            0 <= bodies@[id as int].pos.y,
            pairs_sound(*self, old(out)@, bodies@),
        ensures
            pairs_sound(*self, final(out)@, bodies@),
            forall|y: (usize, usize)| old(out)@.contains(y) ==> #[trigger] final(out)@.contains(y),
            forall|j: int|
                #[trigger] self.must_emit(bodies@, id as int, j) ==> final(out)@.contains(
                    (id, j as usize),
                ),
    {
        let b: Body = bodies[id];
        let bx: usize = (((b.pos.x as u64) / (self.cell_size as u64)) as usize);
        let by: usize = (((b.pos.y as u64) / (self.cell_size as u64)) as usize);
        let mut di: usize = 0;
        while di < 3
            invariant
                self.ok(),
                self.wf_for(bodies@),
                self.binned(bodies@, id as int),
                di <= 3,
                id < bodies@.len(),
                bodies@[id as int].ok(),
                b == bodies@[id as int],
                bx == cell_coord(b.pos.x as int, self.cell_size as int),
                by == cell_coord(b.pos.y as int, self.cell_size as int),
                bx < self.nx,
                by < self.ny,
                pairs_sound(*self, out@, bodies@),
                forall|y: (usize, usize)|
                    old(out)@.contains(y) ==> #[trigger] out@.contains(y),
                forall|j: int|
                    #[trigger] self.must_emit(bodies@, id as int, j) && cell_coord(
                        bodies@[j].pos.x as int,
                        self.cell_size as int,
                    ) + 1 < bx + di ==> out@.contains((id, j as usize)),
            decreases 3 - di,
        {
            let mut dj: usize = 0;
            while dj < 3
                invariant
                    self.ok(),
                    self.wf_for(bodies@),
                    self.binned(bodies@, id as int),
                    di < 3,
                    dj <= 3,
                    id < bodies@.len(),
                    bodies@[id as int].ok(),
                    b == bodies@[id as int],
                    bx == cell_coord(b.pos.x as int, self.cell_size as int),
                    by == cell_coord(b.pos.y as int, self.cell_size as int),
                    bx < self.nx,
                    by < self.ny,
                    pairs_sound(*self, out@, bodies@),
                    forall|y: (usize, usize)|
                        old(out)@.contains(y) ==> #[trigger] out@.contains(y),
                    forall|j: int|
                        #[trigger] self.must_emit(bodies@, id as int, j) && cell_coord(
                            bodies@[j].pos.x as int,
                            self.cell_size as int,
                        ) + 1 < bx + di ==> out@.contains((id, j as usize)),
                    forall|j: int|
                        #[trigger] self.must_emit(bodies@, id as int, j) && cell_coord(
                            bodies@[j].pos.x as int,
                            self.cell_size as int,
                        ) + 1 == bx + di && cell_coord(
                            bodies@[j].pos.y as int,
                            self.cell_size as int,
                        ) + 1 < by + dj ==> out@.contains((id, j as usize)),
                decreases 3 - dj,
            {
                if bx + di >= 1 && bx + di - 1 < self.nx && by + dj >= 1 && by + dj - 1
                    < self.ny {
                    let ncx: usize = bx + di - 1;
                    let ncy: usize = by + dj - 1;
                    proof {
                        lemma_idx_bound(ncx as int, ncy as int, self.nx as int, self.ny as int);
                    }
                    let nk: usize = ncx * self.ny + ncy;
                    let nlen: usize = self.cells[nk].len();
                    let mut u: usize = 0;
                    while u < nlen
                        invariant
                            self.ok(),
                            self.wf_for(bodies@),
                            nk < self.cells@.len(),
                            nk == ncx * self.ny + ncy,
                            ncx < self.nx,
                            ncy < self.ny,
                            di < 3,
                            dj < 3,
                            bx + di >= 1,
                            by + dj >= 1,
                            ncx == bx + di - 1,
                            ncy == by + dj - 1,
                            bx == cell_coord(b.pos.x as int, self.cell_size as int),
                            by == cell_coord(b.pos.y as int, self.cell_size as int),
                            nlen == self.cells@[nk as int]@.len(),
                            u <= nlen,
                            id < bodies@.len(),
                            bodies@[id as int].ok(),
                            self.binned(bodies@, id as int),
                            b == bodies@[id as int],
                            pairs_sound(*self, out@, bodies@),
                            forall|y: (usize, usize)|
                                old(out)@.contains(y) ==> #[trigger] out@.contains(y),
                            forall|j: int|
                                #[trigger] self.must_emit(bodies@, id as int, j) && cell_coord(
                                    bodies@[j].pos.x as int,
                                    self.cell_size as int,
                                ) + 1 < bx + di ==> out@.contains((id, j as usize)),
                            forall|j: int|
                                #[trigger] self.must_emit(bodies@, id as int, j) && cell_coord(
                                    bodies@[j].pos.x as int,
                                    self.cell_size as int,
                                ) + 1 == bx + di && cell_coord(
                                    bodies@[j].pos.y as int,
                                    self.cell_size as int,
                                ) + 1 < by + dj ==> out@.contains((id, j as usize)),
                            forall|u0: int|
                                0 <= u0 < u && (#[trigger] self.cells@[nk as int]@[u0]) != id
                                    && touching(
                                    bodies@[id as int],
                                    bodies@[self.cells@[nk as int]@[u0] as int],
                                ) ==> out@.contains((id, self.cells@[nk as int]@[u0])),
                        decreases nlen - u,
                    {
                        assert(self.entry_ok(bodies@, nk as int, u as int));
                        let oid: usize = self.cells[nk][u];
                        if oid != id {
                            let ob: Body = bodies[oid];
                            proof {
                                let ox = cell_coord(
                                    bodies@[oid as int].pos.x as int,
                                    self.cell_size as int,
                                );
                                let oy = cell_coord(
                                    bodies@[oid as int].pos.y as int,
                                    self.cell_size as int,
                                );
                                vstd::arithmetic::div_mod::lemma_div_pos_is_pos(
                                    bodies@[oid as int].pos.x as int,
                                    self.cell_size as int,
                                );
                                vstd::arithmetic::div_mod::lemma_div_pos_is_pos(
                                    bodies@[oid as int].pos.y as int,
                                    self.cell_size as int,
                                );
                                assert(0 <= ox < self.nx);
                                assert(0 <= oy < self.ny);
                                assert(self.idx(ox, oy) == nk as int);
                                assert(ox * (self.ny as int) + oy == (ncx as int) * (
                                self.ny as int) + (ncy as int));
                                lemma_idx_injective(
                                    ox,
                                    oy,
                                    ncx as int,
                                    ncy as int,
                                    self.ny as int,
                                );
                                assert(ox == ncx && oy == ncy);
                                assert(self.cell_ids(ox, oy) == self.cells@[nk as int]@);
                                assert(self.cell_ids(ox, oy).contains(oid));
                                assert(self.binned(bodies@, oid as int));
                                assert(self.near(bodies@, id as int, oid as int));
                            }
                            if touches(&b, &ob) {
                                let ghost before = out@;
                                out.push((id, oid));
                                proof {
                                    assert forall|y: (usize, usize)|
                                        before.contains(y) implies #[trigger] out@.contains(
                                        y,
                                    ) by {
                                        vstd::seq_lib::lemma_seq_contains_after_push(
                                            before,
                                            (id, oid),
                                            y,
                                        );
                                    }
                                    assert(out@[out@.len() - 1] == (id, oid));
                                    assert(out@.contains((id, oid)));
                                }
                            }
                        }
                        u = u + 1;
                    }
                    proof {
                        assert forall|j: int|
                            #[trigger] self.must_emit(bodies@, id as int, j) && cell_coord(
                                bodies@[j].pos.x as int,
                                self.cell_size as int,
                            ) + 1 == bx + di && cell_coord(
                                bodies@[j].pos.y as int,
                                self.cell_size as int,
                            ) + 1 == by + dj implies out@.contains((id, j as usize)) by {
                            assert(bodies@.len() == bodies.len());
                            let cxj = cell_coord(bodies@[j].pos.x as int, self.cell_size as int);
                            let cyj = cell_coord(bodies@[j].pos.y as int, self.cell_size as int);
                            assert(cxj == ncx && cyj == ncy);
                            assert(self.cell_ids(cxj, cyj).contains(j as usize));
                            assert(self.cell_ids(cxj, cyj) == self.cells@[nk as int]@);
                            assert(self.cells@[nk as int]@.contains(j as usize));
                            let u0 = choose|u0: int|
                                0 <= u0 < self.cells@[nk as int]@.len()
                                    && self.cells@[nk as int]@[u0] == j as usize;
                            assert(self.cells@[nk as int]@[u0] == j as usize);
                            assert(j as usize as int == j);
                            assert(self.cells@[nk as int]@[u0] != id);
                        }
                    }
                } else {
                    proof {
                        assert forall|j: int|
                            #[trigger] self.must_emit(bodies@, id as int, j) && cell_coord(
                                bodies@[j].pos.x as int,
                                self.cell_size as int,
                            ) + 1 == bx + di && cell_coord(
                                bodies@[j].pos.y as int,
                                self.cell_size as int,
                            ) + 1 == by + dj implies out@.contains((id, j as usize)) by {
                            assert(0 <= cell_coord(
                                bodies@[j].pos.x as int,
                                self.cell_size as int,
                            ) < self.nx);
                            assert(0 <= cell_coord(
                                bodies@[j].pos.y as int,
                                self.cell_size as int,
                            ) < self.ny);
                            assert(false);
                        }
                    }
                }
                dj = dj + 1;
            }
            proof {
                assert forall|j: int|
                    #[trigger] self.must_emit(bodies@, id as int, j) && cell_coord(
                        bodies@[j].pos.x as int,
                        self.cell_size as int,
                    ) + 1 < bx + di + 1 implies out@.contains((id, j as usize)) by {
                    let cyj = cell_coord(bodies@[j].pos.y as int, self.cell_size as int);
                    assert(cyj + 1 < by + 3);
                }
            }
            di = di + 1;
        }
        proof {
            assert forall|j: int|
                #[trigger] self.must_emit(bodies@, id as int, j) implies out@.contains(
                (id, j as usize),
            ) by {
                let cxj = cell_coord(bodies@[j].pos.x as int, self.cell_size as int);
                assert(cxj + 1 < bx + 3);
            }
        }
    }

    /// Emit a candidate pair `(id, other)` for every id in every cell and
    /// every distinct overlapping id found in the 3x3 neighborhood of the
    /// id's own cell.
    ///
    /// Every pair returned names two distinct, live, binned bodies whose
    /// circles overlap and whose cells are at most one apart per axis;
    /// and every such pair is returned, in both directed forms, so a
    /// contact is corrected once from each side (the intentional doubled
    /// correction).  The contract does not pin how often a pair is
    /// emitted beyond that.
    pub fn candidate_pairs(&self, bodies: &Vec<Body>) -> (r: Vec<(usize, usize)>)
        requires
            self.ok(),
            self.wf_for(bodies@),
        ensures
            pairs_sound(*self, r@, bodies@),
            forall|i: int, j: int|
                #[trigger] self.must_emit(bodies@, i, j) ==> r@.contains((i as usize, j as usize)),
    {
        let mut out: Vec<(usize, usize)> = Vec::new();
        let mut cx: usize = 0;
        while cx < self.nx
            invariant
                self.ok(),
                self.wf_for(bodies@),
                cx <= self.nx,
                pairs_sound(*self, out@, bodies@),
                forall|i: int, j: int|
                    #[trigger] self.must_emit(bodies@, i, j) && cell_coord(
                        bodies@[i].pos.x as int,
                        self.cell_size as int,
                    ) < cx ==> out@.contains((i as usize, j as usize)),
            decreases self.nx - cx,
        {
            let mut cy: usize = 0;
            while cy < self.ny
                invariant
                    self.ok(),
                    self.wf_for(bodies@),
                    cx < self.nx,
                    cy <= self.ny,
                    pairs_sound(*self, out@, bodies@),
                    forall|i: int, j: int|
                        #[trigger] self.must_emit(bodies@, i, j) && cell_coord(
                            bodies@[i].pos.x as int,
                            self.cell_size as int,
                        ) < cx ==> out@.contains((i as usize, j as usize)),
                    forall|i: int, j: int|
                        #[trigger] self.must_emit(bodies@, i, j) && cell_coord(
                            bodies@[i].pos.x as int,
                            self.cell_size as int,
                        ) == cx && cell_coord(
                            bodies@[i].pos.y as int,
                            self.cell_size as int,
                        ) < cy ==> out@.contains((i as usize, j as usize)),
                decreases self.ny - cy,
            {
                proof {
                    lemma_idx_bound(cx as int, cy as int, self.nx as int, self.ny as int);
                }
                let k: usize = cx * self.ny + cy;
                let clen: usize = self.cells[k].len();
                let mut t: usize = 0;
                while t < clen
                    invariant
                        self.ok(),
                        self.wf_for(bodies@),
                        cx < self.nx,
                        cy < self.ny,
                        k == cx * self.ny + cy,
                        k < self.cells@.len(),
                        clen == self.cells@[k as int]@.len(),
                        t <= clen,
                        pairs_sound(*self, out@, bodies@),
                        forall|i: int, j: int|
                            #[trigger] self.must_emit(bodies@, i, j) && cell_coord(
                                bodies@[i].pos.x as int,
                                self.cell_size as int,
                            ) < cx ==> out@.contains((i as usize, j as usize)),
                        forall|i: int, j: int|
                            #[trigger] self.must_emit(bodies@, i, j) && cell_coord(
                                bodies@[i].pos.x as int,
                                self.cell_size as int,
                            ) == cx && cell_coord(
                                bodies@[i].pos.y as int,
                                self.cell_size as int,
                            ) < cy ==> out@.contains((i as usize, j as usize)),
                        forall|t0: int, j: int|
                            0 <= t0 < t && #[trigger] self.must_emit(
                                bodies@,
                                self.cells@[k as int]@[t0] as int,
                                j,
                            ) ==> out@.contains((self.cells@[k as int]@[t0], j as usize)),
                    decreases clen - t,
                {
                    assert(self.entry_ok(bodies@, k as int, t as int));
                    let id: usize = self.cells[k][t];
                    proof {
                        assert(self.cell_ids(
                            cell_coord(bodies@[id as int].pos.x as int, self.cell_size as int),
                            cell_coord(bodies@[id as int].pos.y as int, self.cell_size as int),
                        ) == self.cells@[k as int]@);
                        assert(self.cells@[k as int]@[t as int] == id);
                        assert(self.cells@[k as int]@.contains(id));
                    }
                    self.scan_neighborhood(bodies, id, &mut out);
                    t = t + 1;
                }
                proof {
                    assert forall|i: int, j: int|
                        #[trigger] self.must_emit(bodies@, i, j) && cell_coord(
                            bodies@[i].pos.x as int,
                            self.cell_size as int,
                        ) == cx && cell_coord(
                            bodies@[i].pos.y as int,
                            self.cell_size as int,
                        ) == cy implies out@.contains((i as usize, j as usize)) by {
                        assert(bodies@.len() == bodies.len());
                        assert(self.cell_ids(cx as int, cy as int).contains(i as usize));
                        assert(self.cell_ids(cx as int, cy as int) == self.cells@[k as int]@);
                        assert(self.cells@[k as int]@.contains(i as usize));
                        let t0 = choose|t0: int|
                            0 <= t0 < self.cells@[k as int]@.len() && self.cells@[k as int]@[t0]
                                == i as usize;
                        assert(self.cells@[k as int]@[t0] == i as usize);
                        assert(i as usize as int == i);
                        assert(self.must_emit(bodies@, self.cells@[k as int]@[t0] as int, j));
                    }
                }
                cy = cy + 1;
            }
            cx = cx + 1;
        }
        out
    }
}

/// Every pair in `ps` names two distinct live bodies, both binned in the
/// grid, whose circles touch and whose cells are at most one apart per
/// axis — a pair straddling a cell boundary may appear once from each
/// side, and the resolver applies every appearance.
pub open spec fn pairs_sound(g: SpatialGrid, ps: Seq<(usize, usize)>, bodies: Seq<Body>) -> bool {
    forall|p: int|
        0 <= p < ps.len() ==> (#[trigger] ps[p]).0 < bodies.len() && ps[p].1 < bodies.len()
            && ps[p].0 != ps[p].1 && touching(bodies[ps[p].0 as int], bodies[ps[p].1 as int])
            && g.binned(bodies, ps[p].0 as int) && g.binned(bodies, ps[p].1 as int) && g.near(
            bodies,
            ps[p].0 as int,
            ps[p].1 as int,
        )
}

/// Row-major flattening is injective on in-range cells.
proof fn lemma_idx_injective(a1: int, b1: int, a2: int, b2: int, ny: int)
    requires
        0 <= b1 < ny,
        0 <= b2 < ny,
        a1 * ny + b1 == a2 * ny + b2,
    ensures
        a1 == a2,
        b1 == b2,
{
    if a1 < a2 {
        assert(false) by (nonlinear_arith)
            requires
                a1 < a2,
                0 <= b1 < ny,
                0 <= b2 < ny,
                a1 * ny + b1 == a2 * ny + b2,
        ;
    }
    if a2 < a1 {
        assert(false) by (nonlinear_arith)
            requires
                a2 < a1,
                0 <= b1 < ny,
                0 <= b2 < ny,
                a1 * ny + b1 == a2 * ny + b2,
        ;
    }
}

/// A cell count derived from a world extent is between 1 and a million.
proof fn lemma_dims(extent: int, cell: int)
    requires
        4 * FX_ONE <= extent <= 1_000_000_000,
        FX_ONE <= cell <= FX_MAX,
    ensures
        1 <= ceil_div(extent, cell) <= 1_000_000,
{
    lemma_div_is_ordered(cell, extent + cell - 1, cell);
    lemma_div_by_self(cell);
    assert(1_000_000 * cell >= 1_000_000_000) by (nonlinear_arith)
        requires
            cell >= 1000,
    ;
    assert(extent + cell - 1 < cell * 1_000_001) by (nonlinear_arith)
        requires
            extent <= 1_000_000_000,
            1_000_000 * cell >= 1_000_000_000,
            cell >= 1000,
    ;
    lemma_multiply_divide_lt(extent + cell - 1, cell, 1_000_001);
}

/// Row-major flattening keeps indices inside the cell list.
pub proof fn lemma_idx_bound(cx: int, cy: int, nx: int, ny: int)
    requires
        0 <= cx < nx,
        0 <= cy < ny,
    ensures
        0 <= cx * ny + cy < nx * ny,
{
    assert(cx * ny + ny <= nx * ny) by (nonlinear_arith)
        requires
            cx < nx,
            0 < ny,
    ;
}

/// The coordinate of any in-world axis value lies inside the grid.
pub proof fn lemma_cell_in_range(v: int, extent: int, cell: int)
    requires
        0 <= v < extent,
        1 <= cell,
    ensures
        0 <= cell_coord(v, cell) < ceil_div(extent, cell),
{
    vstd::arithmetic::div_mod::lemma_div_pos_is_pos(v, cell);
    lemma_div_plus_one(v, cell);
    lemma_div_is_ordered(v + cell, extent + cell - 1, cell);
}

} // verus!
