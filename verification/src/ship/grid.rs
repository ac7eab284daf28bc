//! The grid of module cells a ship is built from.
use crate::cell_map::{
    entry_positions, lemma_count_start, lemma_count_step, lists_each_cell_once, CellMap,
};
use crate::color::rgba_bytes;
use crate::direction::{all_directions, neighbor, opposite_of, step, Direction};
use crate::ship::cell::ShipCell;
use crate::ship::module::{KindSet, ModuleColors, ShipModuleKind};
use crate::ship::order::{
    ascending_positions, lemma_ascending_exists, lemma_is_ascending_positions, pos_lt,
    sort_by_position, strictly_ascending,
};
use crate::ship::raster::{byte_len, Raster};
use crate::ship::thrust::ThrustFace;
use crate::vec::{in_i32_range, IVec2, UVec2};
use vstd::prelude::*;

verus! {

/// The cells of a ship, keyed by grid position.
pub struct ShipGrid(CellMap<ShipCell>);

/// How many cells of `m` hold `kind`.
pub open spec fn kind_count(m: Map<(int, int), ShipCell>, kind: ShipModuleKind) -> nat {
    m.dom().filter(|p: (int, int)| m[p].kind == kind).len()
}

/// `lo` is the smallest `x` of the positions in `s`.
pub open spec fn least_x(s: Set<(int, int)>, lo: int) -> bool {
    (exists|p: (int, int)| s.contains(p) && p.0 == lo) && forall|p: (int, int)| s.contains(p) ==> lo <= p.0
}

/// `lo` is the smallest `y` of the positions in `s`.
pub open spec fn least_y(s: Set<(int, int)>, lo: int) -> bool {
    (exists|p: (int, int)| s.contains(p) && p.1 == lo) && forall|p: (int, int)| s.contains(p) ==> lo <= p.1
}

/// `hi` is the largest `x` of the positions in `s`.
pub open spec fn greatest_x(s: Set<(int, int)>, hi: int) -> bool {
    (exists|p: (int, int)| s.contains(p) && p.0 == hi) && forall|p: (int, int)| s.contains(p) ==> p.0 <= hi
}

/// `hi` is the largest `y` of the positions in `s`.
pub open spec fn greatest_y(s: Set<(int, int)>, hi: int) -> bool {
    (exists|p: (int, int)| s.contains(p) && p.1 == hi) && forall|p: (int, int)| s.contains(p) ==> p.1 <= hi
}

/// `(lo, size)` is the bounding box of the non-empty position set `s`: `lo` the
/// component-wise minimum and `size` the span up to the component-wise maximum
/// inclusive, kept modulo `2^32` (a region spanning every `i32` column has
/// width `0`).
pub open spec fn is_bounding_box(s: Set<(int, int)>, lo: IVec2, size: UVec2) -> bool {
    &&& least_x(s, lo.x as int)
    &&& least_y(s, lo.y as int)
    &&& exists|hx: int, hy: int|
        greatest_x(s, hx) && greatest_y(s, hy) && size.x == (hx - lo.x + 1) % 4294967296
            && size.y == (hy - lo.y + 1) % 4294967296
}

/// The grid position shown by pixel `t` (row-major, top row first) of an
/// image of the region with lowest corner `origin` and extent `size`.
pub open spec fn texel_position(origin: IVec2, size: UVec2, t: int) -> (int, int) {
    (origin.x + t % (size.x as int), origin.y + (size.y - 1 - t / (size.x as int)))
}

/// Byte `i` of the RGBA image of `m` over the region at `origin` of extent
/// `size`: the colour of the cell its pixel shows, or transparent black.
pub open spec fn raster_byte(
    m: Map<(int, int), ShipCell>,
    colors: ModuleColors,
    origin: IVec2,
    size: UVec2,
    i: int,
) -> u8 {
    let p = texel_position(origin, size, i / 4);
    if m.contains_key(p) {
        rgba_bytes(colors.of(m[p].kind))[i % 4]
    } else {
        0u8
    }
}

/// The face of the cell at `p` that pushes toward `push` can fire when no
/// cell sits behind it, on the side its exhaust leaves through.
pub open spec fn face_is_open(m: Map<(int, int), ShipCell>, p: (int, int), push: Direction) -> bool {
    !m.contains_key(step(p, opposite_of(push)))
}

/// The face `(p, push)` if it can fire, else nothing.
pub open spec fn open_face(m: Map<(int, int), ShipCell>, p: (int, int), push: Direction) -> Seq<
    ((int, int), Direction),
> {
    if face_is_open(m, p, push) {
        seq![(p, push)]
    } else {
        seq![]
    }
}

/// The open faces of the cell at `p` among the first `n` directions, in
/// direction order.
pub open spec fn open_faces_upto(m: Map<(int, int), ShipCell>, p: (int, int), n: nat) -> Seq<
    ((int, int), Direction),
>
    decreases n,
{
    if n == 0 {
        seq![]
    } else {
        open_faces_upto(m, p, (n - 1) as nat) + open_face(m, p, all_directions()[n - 1])
    }
}

/// The faces the cell at `p` can fire: its open faces if its kind thrusts,
/// else none.
pub open spec fn cell_faces(m: Map<(int, int), ShipCell>, p: (int, int), thrusting: KindSet) -> Seq<
    ((int, int), Direction),
> {
    if thrusting.has(m[p].kind) {
        open_faces_upto(m, p, 4)
    } else {
        seq![]
    }
}

/// The firing faces of the cells at `order`, cell by cell.
pub open spec fn faces_along(
    m: Map<(int, int), ShipCell>,
    order: Seq<(int, int)>,
    thrusting: KindSet,
) -> Seq<((int, int), Direction)>
    decreases order.len(),
{
    if order.len() == 0 {
        seq![]
    } else {
        faces_along(m, order.drop_last(), thrusting) + cell_faces(m, order.last(), thrusting)
    }
}

/// Every face that can fire, cells taken in ascending position order and each
/// cell's faces in the order east, west, north, south.
pub open spec fn firing_faces(m: Map<(int, int), ShipCell>, thrusting: KindSet) -> Seq<
    ((int, int), Direction),
> {
    faces_along(m, ascending_positions(m.dom()), thrusting)
}

/// Byte `c` of the pixel showing cell `p` in an image of the region at
/// `origin` of extent `size`.
pub open spec fn pixel_byte_of(origin: IVec2, size: UVec2, p: (int, int), c: int) -> int {
    4 * ((size.y - 1 - (p.1 - origin.y)) * size.x + (p.0 - origin.x)) + c
}

/// Pixels of an image of extent `size` lie inside the region it shows.
proof fn lemma_texel_in_region(origin: IVec2, size: UVec2, i: int)
    requires
        0 <= i < byte_len(size),
    ensures
        size.x > 0,
        size.y > 0,
        0 <= i / 4 < size.x * size.y,
        0 <= texel_position(origin, size, i / 4).0 - origin.x < size.x,
        0 <= texel_position(origin, size, i / 4).1 - origin.y < size.y,
        i / 4 == (size.y - 1 - (texel_position(origin, size, i / 4).1 - origin.y)) * size.x + (
        texel_position(origin, size, i / 4).0 - origin.x),
{
    let w = size.x as int;
    let h = size.y as int;
    assert(w > 0 && h > 0) by (nonlinear_arith)
        requires
            0 <= i < w * h * 4,
            w >= 0,
            h >= 0,
    ;
    let t = i / 4;
    vstd::arithmetic::div_mod::lemma_fundamental_div_mod(i, 4);
    vstd::arithmetic::div_mod::lemma_fundamental_div_mod(t, w);
    let q = t / w;
    let r = t % w;
    assert(0 <= t < w * h);
    assert(0 <= q < h) by (nonlinear_arith)
        requires
            t == w * q + r,
            0 <= r < w,
            0 <= t < w * h,
            w > 0,
    ;
    assert(t == q * w + r) by (nonlinear_arith)
        requires
            t == w * q + r,
    ;
    assert(texel_position(origin, size, t).0 - origin.x == r);
    assert(size.y - 1 - (texel_position(origin, size, t).1 - origin.y) == q);
}

/// The pixel at column `lx` of row `row` is pixel `row * w + lx`.
proof fn lemma_texel_of(origin: IVec2, size: UVec2, lx: int, ly: int, c: int)
    requires
        0 <= lx < size.x,
        0 <= ly < size.y,
        0 <= c < 4,
    ensures
        ({
            let t = (size.y - 1 - ly) * size.x + lx;
            &&& 0 <= t < size.x * size.y
            &&& (4 * t + c) / 4 == t
            &&& (4 * t + c) % 4 == c
            &&& texel_position(origin, size, t) == (origin.x + lx, origin.y + ly)
            &&& 4 * t + c < byte_len(size)
        }),
{
    let w = size.x as int;
    let h = size.y as int;
    let row = h - 1 - ly;
    let t = row * w + lx;
    assert(0 <= t < w * h) by (nonlinear_arith)
        requires
            t == row * w + lx,
            0 <= row < h,
            0 <= lx < w,
    ;
    vstd::arithmetic::div_mod::lemma_fundamental_div_mod_converse(4 * t + c, 4, t, c);
    vstd::arithmetic::div_mod::lemma_fundamental_div_mod_converse(t, w, row, lx);
}

impl ShipGrid {
    /// The occupied positions and their cells.
    pub closed spec fn view(&self) -> Map<(int, int), ShipCell> {
        self.0.view()
    }

    /// Every occupied position fits in an `IVec2`, and there are finitely
    /// many.
    pub proof fn lemma_well_formed(&self)
        ensures
            self@.dom().finite(),
            forall|p: (int, int)| self@.contains_key(p) ==> in_i32_range(p),
    {
        self.0.lemma_finite();
        assert forall|p: (int, int)| self@.contains_key(p) implies in_i32_range(p) by {
            self.0.lemma_positions_in_range(p);
        }
    }

    /// An empty grid.
    pub fn new() -> (g: ShipGrid)
        ensures
            g@ == Map::<(int, int), ShipCell>::empty(),
    {
        ShipGrid(CellMap::new())
    }

    /// Puts a module of `kind` at `at`, replacing what was there.
    pub fn place(&mut self, at: IVec2, kind: ShipModuleKind)
        ensures
            final(self)@ == old(self)@.insert(at@, ShipCell { kind }),
    {
        self.0.insert(at, ShipCell { kind });
    }

    /// Clears `at`, handing back the cell that was there.
    pub fn remove(&mut self, at: IVec2) -> (r: Option<ShipCell>)
        ensures
            final(self)@ == old(self)@.remove(at@),
            r == old(self)@.get(at@),
    {
        self.0.remove(at)
    }

    /// The cell at `at`, if any.
    pub fn get(&self, at: IVec2) -> (r: Option<&ShipCell>)
        ensures
            match r {
                Some(c) => self@.contains_key(at@) && *c == self@[at@],
                None => !self@.contains_key(at@),
            },
    {
        self.0.get(at)
    }

    /// Every cell with its position, each once, in no particular order.
    pub fn cells(&self) -> (r: Vec<(IVec2, ShipCell)>)
        ensures
            lists_each_cell_once(r@, self@),
    {
        self.0.entries()
    }

    pub fn is_empty(&self) -> (r: bool)
        ensures
            r == self@.dom().is_empty(),
    {
        self.0.is_empty()
    }

    /// How many cells hold `kind`.
    pub fn count_kind(&self, kind: ShipModuleKind) -> (n: usize)
        ensures
            n == kind_count(self@, kind),
    {
        let cells = self.0.entries();
        let ghost ps = entry_positions(cells@);
        let ghost m = self@;
        let ghost pred = |p: (int, int)| m[p].kind == kind;
        let mut n: usize = 0;
        let mut i: usize = 0;
        proof {
            lemma_count_start(ps, pred);
        }
        while i < cells.len()
            invariant
                lists_each_cell_once(cells@, m),
                ps == entry_positions(cells@),
                pred == (|p: (int, int)| m[p].kind == kind),
                0 <= i <= cells.len(),
                n == ps.take(i as int).to_set().filter(pred).len(),
                n <= i,
            decreases cells.len() - i,
        {
            proof {
                lemma_count_step(ps, i as int, pred);
                assert(ps[i as int] == cells@[i as int].0@);
            }
            if cells[i].1.kind == kind {
                n = n + 1;
            }
            i = i + 1;
        }
        proof {
            assert(ps.take(cells.len() as int) =~= ps);
        }
        n
    }

    /// The smallest region holding every cell: its lowest corner and its size.
    /// `None` when the grid is empty.
    pub fn bounds(&self) -> (r: Option<(IVec2, UVec2)>)
        ensures
            match r {
                None => self@.dom().is_empty(),
                Some((lo, size)) => !self@.dom().is_empty() && is_bounding_box(self@.dom(), lo, size),
            },
    {
        let cells = self.0.entries();
        let ghost m = self@;
        let ghost ps = entry_positions(cells@);
        if cells.len() == 0 {
            proof {
                assert(m.dom().len() == 0);
            }
            return None;
        }
        let first = cells[0].0;
        let mut lo = first;
        let mut hi = first;
        let ghost mut w_lx: int = 0;
        let ghost mut w_ly: int = 0;
        let ghost mut w_hx: int = 0;
        let ghost mut w_hy: int = 0;
        let mut i: usize = 1;
        while i < cells.len()
            invariant
                lists_each_cell_once(cells@, m),
                ps == entry_positions(cells@),
                1 <= i <= cells.len(),
                0 <= w_lx < i && cells@[w_lx].0.x == lo.x,
                0 <= w_ly < i && cells@[w_ly].0.y == lo.y,
                0 <= w_hx < i && cells@[w_hx].0.x == hi.x,
                0 <= w_hy < i && cells@[w_hy].0.y == hi.y,
                forall|j: int|
                    0 <= j < i ==> lo.x <= #[trigger] cells@[j].0.x <= hi.x && lo.y <= cells@[j].0.y
                        <= hi.y,
            decreases cells.len() - i,
        {
            let p = cells[i].0;
            proof {
                if p.x < lo.x {
                    w_lx = i as int;
                }
                if p.y < lo.y {
                    w_ly = i as int;
                }
                if p.x > hi.x {
                    w_hx = i as int;
                }
                if p.y > hi.y {
                    w_hy = i as int;
                }
            }
            let ghost (old_lo, old_hi) = (lo, hi);
            lo = lo.min(p);
            hi = hi.max(p);
            proof {
                assert forall|j: int| 0 <= j < i + 1 implies lo.x <= #[trigger] cells@[j].0.x
                    <= hi.x && lo.y <= cells@[j].0.y <= hi.y by {
                    if j < i {
                        assert(old_lo.x <= cells@[j].0.x <= old_hi.x);
                        assert(old_lo.y <= cells@[j].0.y <= old_hi.y);
                    }
                }
            }
            i = i + 1;
        }
        proof {
            let s = m.dom();
            assert forall|q: (int, int)| s.contains(q) implies lo.x <= q.0 <= hi.x && lo.y <= q.1
                <= hi.y by {
                assert(ps.to_set().contains(q));
                let j = choose|j: int| 0 <= j < ps.len() && ps[j] == q;
                assert(ps[j] == cells@[j].0@);
            }
            assert(s.contains(cells@[w_lx].0@));
            assert(s.contains(cells@[w_ly].0@));
            assert(s.contains(cells@[w_hx].0@));
            assert(s.contains(cells@[w_hy].0@));
            assert(greatest_x(s, hi.x as int));
            assert(greatest_y(s, hi.y as int));
            assert(s.contains(cells@[0].0@));
        }
        let sx = ((hi.x as i64 - lo.x as i64 + 1) % 4294967296) as u32;
        let sy = ((hi.y as i64 - lo.y as i64 + 1) % 4294967296) as u32;
        Some((lo, UVec2 { x: sx, y: sy }))
    }
}

impl ShipGrid {
    /// Paints the region with lowest corner `origin` and extent `size` into an
    /// RGBA image, top row first: each pixel showing a cell gets that cell's
    /// module colour and every other pixel stays transparent black. Cells
    /// outside the region are left out.
    pub fn rasterize(&self, origin: IVec2, size: UVec2, colors: &ModuleColors) -> (r: Raster)
        requires
            byte_len(size) <= u32::MAX,
        ensures
            r.origin == origin,
            r.size == size,
            r.pixels@.len() == byte_len(size),
            forall|i: int|
                0 <= i < r.pixels@.len() ==> r.pixels@[i] == raster_byte(
                    self@,
                    *colors,
                    origin,
                    size,
                    i,
                ),
    {
        let mut raster = Raster::new(origin, size);
        let cells = self.0.entries();
        let ghost m = self@;
        let ghost ps = entry_positions(cells@);
        let ghost len = byte_len(size);
        let mut k: usize = 0;
        while k < cells.len()
            invariant
                lists_each_cell_once(cells@, m),
                ps == entry_positions(cells@),
                0 <= k <= cells.len(),
                len == byte_len(size),
                len <= u32::MAX,
                raster.origin == origin,
                raster.size == size,
                raster.pixels@.len() == len,
                forall|i: int|
                    0 <= i < len ==> #[trigger] raster.pixels@[i] == if ps.take(k as int).contains(
                        texel_position(origin, size, i / 4),
                    ) {
                        rgba_bytes(colors.of(m[texel_position(origin, size, i / 4)].kind))[i % 4]
                    } else {
                        0u8
                    },
            decreases cells.len() - k,
        {
            let pos = cells[k].0;
            let cell = cells[k].1;
            let ghost q = pos@;
            let ghost before = raster.pixels@;
            proof {
                assert(ps[k as int] == q);
                assert(m.contains_key(q) && m[q] == cell);
                assert(ps.take(k + 1) =~= ps.take(k as int).push(q));
                broadcast use vstd::seq_lib::group_seq_properties;
            }
            let lx = pos.x as i64 - origin.x as i64;
            let ly = pos.y as i64 - origin.y as i64;
            if lx >= 0 && ly >= 0 && lx < size.x as i64 && ly < size.y as i64 {
                let row = size.y - 1 - ly as u32;
                proof {
                    lemma_texel_of(origin, size, lx as int, ly as int, 0);
                    assert(row * size.x + lx < size.x * size.y);
                }
                let t = row * size.x + lx as u32;
                let idx = (t * 4) as usize;
                let color = colors.color(cell.kind);
                raster.pixels.set(idx, color.r);
                raster.pixels.set(idx + 1, color.g);
                raster.pixels.set(idx + 2, color.b);
                raster.pixels.set(idx + 3, color.a);
                proof {
                    assert forall|i: int| 0 <= i < len implies #[trigger] raster.pixels@[i]
                        == if ps.take(k + 1).contains(texel_position(origin, size, i / 4)) {
                        rgba_bytes(colors.of(m[texel_position(origin, size, i / 4)].kind))[i % 4]
                    } else {
                        0u8
                    } by {
                        let tp = texel_position(origin, size, i / 4);
                        if idx <= i < idx + 4 {
                            lemma_texel_of(origin, size, lx as int, ly as int, i - idx);
                            assert(tp == q);
                        } else {
                            lemma_texel_in_region(origin, size, i);
                            if tp == q {
                                lemma_texel_of(origin, size, lx as int, ly as int, 0);
                                assert(i / 4 == t);
                                vstd::arithmetic::div_mod::lemma_fundamental_div_mod(i, 4);
                                assert(false);
                            }
                            assert(raster.pixels@[i] == before[i]);
                        }
                    }
                }
            } else {
                proof {
                    assert forall|i: int| 0 <= i < len implies #[trigger] texel_position(origin, size, i / 4)
                        != q by {
                        lemma_texel_in_region(origin, size, i);
                    }
                }
            }
            k = k + 1;
        }
        proof {
            assert(ps.take(cells.len() as int) =~= ps);
            assert forall|p: (int, int)| ps.contains(p) == m.contains_key(p) by {
                assert(ps.to_set().contains(p) == ps.contains(p));
            }
        }
        raster
    }
}

impl ShipGrid {
    /// The faces of thrusting cells that can fire: those with no cell behind
    /// them. Cells are taken by ascending `x`, then `y`, and each cell's faces
    /// in the order east, west, north, south, so the list depends only on the
    /// grid's contents.
    pub fn thruster_faces(&self, thrusting: KindSet) -> (r: Vec<ThrustFace>)
        ensures
            r@.map_values(|f: ThrustFace| f@) == firing_faces(self@, thrusting),
    {
        let cells = self.0.entries();
        let sorted = sort_by_position(&cells);
        let ghost m = self@;
        let ghost order = entry_positions(sorted@);
        proof {
            assert(order.to_set() == m.dom());
            lemma_is_ascending_positions(order, m.dom());
        }
        let mut faces: Vec<ThrustFace> = Vec::new();
        let mut i: usize = 0;
        while i < sorted.len()
            invariant
                lists_each_cell_once(cells@, m),
                order == entry_positions(sorted@),
                order.len() == sorted@.len(),
                forall|k: int| 0 <= k < sorted@.len() ==> cells@.contains(#[trigger] sorted@[k]),
                0 <= i <= sorted.len(),
                m == self@,
                faces@.map_values(|f: ThrustFace| f@) == faces_along(
                    m,
                    order.take(i as int),
                    thrusting,
                ),
            decreases sorted.len() - i,
        {
            let pos = sorted[i].0;
            let cell = sorted[i].1;
            let ghost p = pos@;
            let ghost before = faces@.map_values(|f: ThrustFace| f@);
            proof {
                assert(order[i as int] == p);
                assert(cells@.contains(sorted@[i as int]));
                let c = choose|c: int| 0 <= c < cells@.len() && cells@[c] == sorted@[i as int];
                assert(m.contains_key(cells@[c].0@) && m[cells@[c].0@] == cells@[c].1);
                assert(m[p] == cell);
                assert(order.take(i + 1).drop_last() =~= order.take(i as int));
                assert(order.take(i + 1).last() == p);
            }
            if thrusting.contains(cell.kind) {
                let mut j: usize = 0;
                proof {
                    assert(before + open_faces_upto(m, p, 0) =~= before);
                }
                while j < 4
                    invariant
                        0 <= j <= 4,
                        m == self@,
                        pos@ == p,
                        faces@.map_values(|f: ThrustFace| f@) == before + open_faces_upto(
                            m,
                            p,
                            j as nat,
                        ),
                    decreases 4 - j,
                {
                    let push = Direction::nth(j);
                    let behind = neighbor(pos, push.opposite());
                    let open = match behind {
                        Some(n) => self.0.get(n).is_none(),
                        None => true,
                    };
                    proof {
                        if behind is None {
                            if m.contains_key(step(p, opposite_of(push))) {
                                self.0.lemma_positions_in_range(step(p, opposite_of(push)));
                            }
                        }
                        assert(open == face_is_open(m, p, push));
                    }
                    let ghost prev = faces@;
                    if open {
                        faces.push(ThrustFace { cell: pos, push });
                    }
                    proof {
                        assert(faces@.map_values(|f: ThrustFace| f@) =~= prev.map_values(
                            |f: ThrustFace| f@,
                        ) + open_face(m, p, push));
                    }
                    j = j + 1;
                }
            } else {
                proof {
                    assert(before + cell_faces(m, p, thrusting) =~= before);
                }
            }
            i = i + 1;
        }
        proof {
            assert(order.take(sorted.len() as int) =~= order);
        }
        faces
    }
}

/// Clearing an occupied position takes one from its kind's count.
proof fn lemma_kind_count_after_remove(
    m: Map<(int, int), ShipCell>,
    p: (int, int),
    kind: ShipModuleKind,
)
    requires
        m.dom().finite(),
        m.contains_key(p),
    ensures
        kind_count(m.remove(p), kind) == kind_count(m, kind) - if m[p].kind == kind {
            1int
        } else {
            0int
        },
{
    broadcast use vstd::set::group_set_axioms;
    broadcast use vstd::set_lib::group_set_properties;

    let n = m.remove(p);
    let before = m.dom().filter(|q: (int, int)| m[q].kind == kind);
    let after = n.dom().filter(|q: (int, int)| n[q].kind == kind);
    if m[p].kind == kind {
        assert(after =~= before.remove(p));
    } else {
        assert(after =~= before);
    }
}

/// Every cell holds exactly one kind: the per-kind counts add up to the
/// number of cells.
pub proof fn lemma_kind_counts_add_up(m: Map<(int, int), ShipCell>)
    requires
        m.dom().finite(),
    ensures
        kind_count(m, ShipModuleKind::Hull) + kind_count(m, ShipModuleKind::Thruster) + kind_count(
            m,
            ShipModuleKind::Reactor,
        ) == m.dom().len(),
    decreases m.dom().len(),
{
    broadcast use vstd::set::group_set_axioms;
    broadcast use vstd::set_lib::group_set_properties;

    if m.dom().len() == 0 {
        assert(m.dom() =~= Set::<(int, int)>::empty());
        assert(m.dom().filter(|q: (int, int)| m[q].kind == ShipModuleKind::Hull) =~= Set::<
            (int, int),
        >::empty());
        assert(m.dom().filter(|q: (int, int)| m[q].kind == ShipModuleKind::Thruster) =~= Set::<
            (int, int),
        >::empty());
        assert(m.dom().filter(|q: (int, int)| m[q].kind == ShipModuleKind::Reactor) =~= Set::<
            (int, int),
        >::empty());
    } else {
        let p = m.dom().choose();
        assert(m.remove(p).dom() =~= m.dom().remove(p));
        lemma_kind_counts_add_up(m.remove(p));
        lemma_kind_count_after_remove(m, p, ShipModuleKind::Hull);
        lemma_kind_count_after_remove(m, p, ShipModuleKind::Thruster);
        lemma_kind_count_after_remove(m, p, ShipModuleKind::Reactor);
    }
}

/// Bounds cover every cell: unless the bounding box spans every `i32` column
/// or row (and so has width or height `0`), each cell lies inside it.
pub proof fn lemma_bounds_cover_every_cell(grid: ShipGrid, lo: IVec2, size: UVec2, p: (int, int))
    requires
        is_bounding_box(grid@.dom(), lo, size),
        size.x > 0,
        size.y > 0,
        grid@.contains_key(p),
    ensures
        lo.x <= p.0 < lo.x + size.x,
        lo.y <= p.1 < lo.y + size.y,
{
    grid.lemma_well_formed();
    let s = grid@.dom();
    let (hx, hy) = choose|hx: int, hy: int|
        greatest_x(s, hx) && greatest_y(s, hy) && size.x == (hx - lo.x + 1) % 4294967296 && size.y
            == (hy - lo.y + 1) % 4294967296;
    let qx = choose|q: (int, int)| s.contains(q) && q.0 == hx;
    let qy = choose|q: (int, int)| s.contains(q) && q.1 == hy;
    assert(in_i32_range(qx) && in_i32_range(qy));
    assert(lo.x <= p.0 <= hx && lo.y <= p.1 <= hy);
    let ex = hx - lo.x + 1;
    let ey = hy - lo.y + 1;
    assert(1 <= ex <= 4294967296 && 1 <= ey <= 4294967296);
    if ex == 4294967296 {
        vstd::arithmetic::div_mod::lemma_mod_self_0(4294967296);
    } else {
        vstd::arithmetic::div_mod::lemma_small_mod(ex as nat, 4294967296);
    }
    if ey == 4294967296 {
        vstd::arithmetic::div_mod::lemma_mod_self_0(4294967296);
    } else {
        vstd::arithmetic::div_mod::lemma_small_mod(ey as nat, 4294967296);
    }
}

/// Rasterizing the bounding box shows every cell: the four bytes of the
/// pixel that shows cell `p` hold the colour of `p`'s module.
pub proof fn lemma_bounds_raster_shows_every_cell(
    grid: ShipGrid,
    colors: ModuleColors,
    lo: IVec2,
    size: UVec2,
    p: (int, int),
)
    requires
        is_bounding_box(grid@.dom(), lo, size),
        size.x > 0,
        size.y > 0,
        grid@.contains_key(p),
    ensures
        forall|c: int|
            0 <= c < 4 ==> 0 <= #[trigger] pixel_byte_of(lo, size, p, c) < byte_len(size)
                && raster_byte(grid@, colors, lo, size, pixel_byte_of(lo, size, p, c))
                == rgba_bytes(colors.of(grid@[p].kind))[c],
{
    lemma_bounds_cover_every_cell(grid, lo, size, p);
    assert forall|c: int| 0 <= c < 4 implies 0 <= #[trigger] pixel_byte_of(lo, size, p, c)
        < byte_len(size) && raster_byte(grid@, colors, lo, size, pixel_byte_of(lo, size, p, c))
        == rgba_bytes(colors.of(grid@[p].kind))[c] by {
        lemma_texel_of(lo, size, p.0 - lo.x, p.1 - lo.y, c);
    }
}

/// Images are drawn top row first: of two cells inside the region, the
/// higher one's pixel comes earlier in the image, and cells in one row come
/// left to right.
pub proof fn lemma_higher_cells_come_first(
    origin: IVec2,
    size: UVec2,
    p: (int, int),
    q: (int, int),
    c: int,
    d: int,
)
    requires
        0 <= p.0 - origin.x < size.x,
        0 <= p.1 - origin.y < size.y,
        0 <= q.0 - origin.x < size.x,
        0 <= q.1 - origin.y < size.y,
        0 <= c < 4,
        0 <= d < 4,
        p.1 > q.1 || (p.1 == q.1 && p.0 < q.0),
    ensures
        pixel_byte_of(origin, size, p, c) < pixel_byte_of(origin, size, q, d),
{
    let w = size.x as int;
    let rp = size.y - 1 - (p.1 - origin.y);
    let rq = size.y - 1 - (q.1 - origin.y);
    let xp = p.0 - origin.x;
    let xq = q.0 - origin.x;
    assert(rp * w + xp < rq * w + xq) by (nonlinear_arith)
        requires
            0 <= xp < w,
            0 <= xq < w,
            rp < rq || (rp == rq && xp < xq),
    ;
}

/// A region holding no cell rasterizes to a fully transparent image.
pub proof fn lemma_raster_of_empty_region_is_blank(
    grid: ShipGrid,
    colors: ModuleColors,
    origin: IVec2,
    size: UVec2,
)
    requires
        forall|p: (int, int)|
            grid@.contains_key(p) ==> !(0 <= p.0 - origin.x < size.x && 0 <= p.1 - origin.y
                < size.y),
    ensures
        forall|i: int| 0 <= i < byte_len(size) ==> #[trigger] raster_byte(grid@, colors, origin, size, i) == 0,
{
    assert forall|i: int| 0 <= i < byte_len(size) implies #[trigger] raster_byte(
        grid@,
        colors,
        origin,
        size,
        i,
    ) == 0 by {
        lemma_texel_in_region(origin, size, i);
    }
}

/// The faces a single cell can fire are its open faces if it thrusts, each
/// once.
proof fn lemma_cell_faces_exact(m: Map<(int, int), ShipCell>, p: (int, int), thrusting: KindSet)
    ensures
        cell_faces(m, p, thrusting).no_duplicates(),
        forall|f: ((int, int), Direction)|
            cell_faces(m, p, thrusting).contains(f) <==> f.0 == p && thrusting.has(m[p].kind)
                && face_is_open(m, p, f.1),
{
    reveal_with_fuel(open_faces_upto, 5);
    let e = open_face(m, p, Direction::East);
    let w = open_face(m, p, Direction::West);
    let n = open_face(m, p, Direction::North);
    let s = open_face(m, p, Direction::South);
    assert(open_faces_upto(m, p, 4) =~= e + w + n + s);
    let all = e + w + n + s;
    assert forall|i: int, j: int| 0 <= i < all.len() && 0 <= j < all.len() && i != j implies all[i]
        != all[j] by {
        assert(all[i].1 != all[j].1) by {
            if e.len() + w.len() + n.len() + s.len() > 0 {
            }
        }
    }
    assert forall|f: ((int, int), Direction)| all.contains(f) <==> f.0 == p && face_is_open(
        m,
        p,
        f.1,
    ) by {
        if f.0 == p && face_is_open(m, p, f.1) {
            match f.1 {
                Direction::East => assert(all[0] == f),
                Direction::West => assert(all[e.len() as int] == f),
                Direction::North => assert(all[(e.len() + w.len()) as int] == f),
                Direction::South => assert(all[(e.len() + w.len() + n.len()) as int] == f),
            }
        }
    }
    if !thrusting.has(m[p].kind) {
        assert(cell_faces(m, p, thrusting) =~= Seq::<((int, int), Direction)>::empty());
    }
}

/// The faces listed along a duplicate-free order of cells are exactly the
/// open faces of its thrusting cells, each once.
proof fn lemma_faces_along_exact(
    m: Map<(int, int), ShipCell>,
    order: Seq<(int, int)>,
    thrusting: KindSet,
)
    requires
        order.no_duplicates(),
    ensures
        faces_along(m, order, thrusting).no_duplicates(),
        forall|f: ((int, int), Direction)|
            faces_along(m, order, thrusting).contains(f) <==> order.contains(f.0) && thrusting.has(
                m[f.0].kind,
            ) && face_is_open(m, f.0, f.1),
    decreases order.len(),
{
    if order.len() > 0 {
        let init = order.drop_last();
        let p = order.last();
        assert(init.no_duplicates());
        lemma_faces_along_exact(m, init, thrusting);
        lemma_cell_faces_exact(m, p, thrusting);
        let a = faces_along(m, init, thrusting);
        let b = cell_faces(m, p, thrusting);
        assert(!init.contains(p)) by {
            if init.contains(p) {
                let i = choose|i: int| 0 <= i < init.len() && init[i] == p;
                assert(order[i] == order[order.len() - 1]);
            }
        }
        let ab = a + b;
        assert forall|i: int, j: int| 0 <= i < ab.len() && 0 <= j < ab.len() && i != j implies ab[i]
            != ab[j] by {
            if i < a.len() && j >= a.len() {
                assert(a.contains(ab[i]));
                assert(b.contains(ab[j]));
            } else if j < a.len() && i >= a.len() {
                assert(a.contains(ab[j]));
                assert(b.contains(ab[i]));
            } else if i >= a.len() {
                assert(ab[i] == b[i - a.len()] && ab[j] == b[j - a.len()]);
            }
        }
        assert forall|f: ((int, int), Direction)| ab.contains(f) <==> order.contains(f.0)
            && thrusting.has(m[f.0].kind) && face_is_open(m, f.0, f.1) by {
            if ab.contains(f) {
                let i = choose|i: int| 0 <= i < ab.len() && ab[i] == f;
                if i < a.len() {
                    assert(a.contains(f));
                    let k = choose|k: int| 0 <= k < init.len() && init[k] == f.0;
                    assert(order[k] == f.0);
                } else {
                    assert(b[i - a.len()] == f);
                    assert(b.contains(f));
                    assert(order[order.len() - 1] == f.0);
                }
            }
            if order.contains(f.0) && thrusting.has(m[f.0].kind) && face_is_open(m, f.0, f.1) {
                let k = choose|k: int| 0 <= k < order.len() && order[k] == f.0;
                if k < order.len() - 1 {
                    assert(init[k] == f.0);
                    assert(a.contains(f));
                    let i = choose|i: int| 0 <= i < a.len() && a[i] == f;
                    assert(ab[i] == f);
                } else {
                    assert(b.contains(f));
                    let i = choose|i: int| 0 <= i < b.len() && b[i] == f;
                    assert(ab[i + a.len()] == f);
                }
            }
        }
    }
}

/// The thruster faces are exactly the open faces of thrusting cells: a face
/// is listed if and only if its cell thrusts and nothing sits behind it, and
/// no face is listed twice.
pub proof fn lemma_firing_faces_exact(grid: ShipGrid, thrusting: KindSet)
    ensures
        firing_faces(grid@, thrusting).no_duplicates(),
        forall|f: ((int, int), Direction)|
            firing_faces(grid@, thrusting).contains(f) <==> grid@.contains_key(f.0) && thrusting.has(
                grid@[f.0].kind,
            ) && face_is_open(grid@, f.0, f.1),
{
    grid.lemma_well_formed();
    let order = ascending_positions(grid@.dom());
    lemma_ascending_exists(grid@.dom());
    assert(order.no_duplicates()) by {
        assert forall|i: int, j: int| 0 <= i < order.len() && 0 <= j < order.len() && i != j implies order[i]
            != order[j] by {
            if i < j {
                assert(pos_lt(order[i], order[j]));
            } else {
                assert(pos_lt(order[j], order[i]));
            }
        }
    }
    lemma_faces_along_exact(grid@, order, thrusting);
    assert forall|p: (int, int)| order.contains(p) <==> grid@.contains_key(p) by {
        assert(order.to_set().contains(p) == order.contains(p));
    }
}

/// The rank of a direction in the order faces of one cell are listed.
spec fn push_rank(d: Direction) -> int {
    match d {
        Direction::East => 0,
        Direction::West => 1,
        Direction::North => 2,
        Direction::South => 3,
    }
}

/// One cell's faces all belong to it and come in the order east, west,
/// north, south.
proof fn lemma_cell_faces_ordered(m: Map<(int, int), ShipCell>, p: (int, int), thrusting: KindSet)
    ensures
        forall|i: int| 0 <= i < cell_faces(m, p, thrusting).len() ==> #[trigger] cell_faces(m, p, thrusting)[i].0 == p,
        forall|i: int, j: int|
            0 <= i < j < cell_faces(m, p, thrusting).len() ==> push_rank(
                #[trigger] cell_faces(m, p, thrusting)[i].1,
            ) < push_rank(#[trigger] cell_faces(m, p, thrusting)[j].1),
{
    reveal_with_fuel(open_faces_upto, 5);
    let e = open_face(m, p, Direction::East);
    let w = open_face(m, p, Direction::West);
    let n = open_face(m, p, Direction::North);
    let s = open_face(m, p, Direction::South);
    let all = e + w + n + s;
    assert(open_faces_upto(m, p, 4) =~= all);
    let a = e.len() as int;
    let b = a + w.len();
    let c = b + n.len();
    assert forall|k: int| 0 <= k < all.len() implies #[trigger] all[k].0 == p && push_rank(all[k].1)
        == if k < a {
        0int
    } else if k < b {
        1int
    } else if k < c {
        2int
    } else {
        3int
    } by {
        if k < a {
            assert(all[k] == e[k]);
        } else if k < b {
            assert(all[k] == w[k - a]);
        } else if k < c {
            assert(all[k] == n[k - b]);
        } else {
            assert(all[k] == s[k - c]);
        }
    }
    if !thrusting.has(m[p].kind) {
        assert(cell_faces(m, p, thrusting) =~= Seq::<((int, int), Direction)>::empty());
    }
}

/// Faces along an ascending order of cells come cell by cell, each cell's in
/// direction order.
proof fn lemma_faces_along_ordered(
    m: Map<(int, int), ShipCell>,
    order: Seq<(int, int)>,
    thrusting: KindSet,
)
    requires
        strictly_ascending(order),
    ensures
        forall|i: int, j: int|
            0 <= i < j < faces_along(m, order, thrusting).len() ==> {
                let f = #[trigger] faces_along(m, order, thrusting)[i];
                let g = #[trigger] faces_along(m, order, thrusting)[j];
                f.0.0 < g.0.0 || (f.0.0 == g.0.0 && f.0.1 < g.0.1) || (f.0 == g.0 && push_rank(f.1)
                    < push_rank(g.1))
            },
    decreases order.len(),
{
    if order.len() > 0 {
        let init = order.drop_last();
        let last = order.last();
        assert(strictly_ascending(init)) by {
            assert forall|i: int, j: int| 0 <= i < j < init.len() implies pos_lt(
                init[i],
                init[j],
            ) by {
                assert(init[i] == order[i] && init[j] == order[j]);
            }
        }
        assert(init.no_duplicates()) by {
            assert forall|i: int, j: int| 0 <= i < init.len() && 0 <= j < init.len() && i != j implies init[i]
                != init[j] by {
                if i < j {
                    assert(pos_lt(init[i], init[j]));
                } else {
                    assert(pos_lt(init[j], init[i]));
                }
            }
        }
        lemma_faces_along_ordered(m, init, thrusting);
        lemma_faces_along_exact(m, init, thrusting);
        lemma_cell_faces_ordered(m, last, thrusting);
        let x = faces_along(m, init, thrusting);
        let y = cell_faces(m, last, thrusting);
        let all = x + y;
        assert(faces_along(m, order, thrusting) == all);
        assert forall|i: int, j: int| 0 <= i < j < all.len() implies {
            let f = #[trigger] all[i];
            let g = #[trigger] all[j];
            f.0.0 < g.0.0 || (f.0.0 == g.0.0 && f.0.1 < g.0.1) || (f.0 == g.0 && push_rank(f.1)
                < push_rank(g.1))
        } by {
            if j < x.len() {
                assert(all[i] == x[i] && all[j] == x[j]);
            } else if i >= x.len() {
                assert(all[i] == y[i - x.len()] && all[j] == y[j - x.len()]);
            } else {
                assert(all[i] == x[i]);
                assert(all[j] == y[j - x.len()]);
                assert(x.contains(x[i]));
                let k = choose|k: int| 0 <= k < init.len() && init[k] == x[i].0;
                assert(order[k] == x[i].0);
                assert(pos_lt(order[k], order[order.len() - 1]));
            }
        }
    }
}

/// The thruster faces come in position order: by ascending `x`, then
/// ascending `y`, and the faces of one cell in the order east, west, north,
/// south.
pub proof fn lemma_faces_in_position_order(grid: ShipGrid, thrusting: KindSet)
    ensures
        forall|i: int, j: int|
            0 <= i < j < firing_faces(grid@, thrusting).len() ==> {
                let f = #[trigger] firing_faces(grid@, thrusting)[i];
                let g = #[trigger] firing_faces(grid@, thrusting)[j];
                ||| f.0.0 < g.0.0
                ||| f.0.0 == g.0.0 && f.0.1 < g.0.1
                ||| f.0 == g.0 && match (f.1, g.1) {
                    (Direction::East, Direction::West) => true,
                    (Direction::East, Direction::North) => true,
                    (Direction::East, Direction::South) => true,
                    (Direction::West, Direction::North) => true,
                    (Direction::West, Direction::South) => true,
                    (Direction::North, Direction::South) => true,
                    _ => false,
                }
            },
{
    grid.lemma_well_formed();
    lemma_ascending_exists(grid@.dom());
    lemma_faces_along_ordered(grid@, ascending_positions(grid@.dom()), thrusting);
}

/// The pixel showing a cell inside the region holds, byte by byte, the colour
/// configured for that cell's own kind.
pub proof fn lemma_pixel_shows_its_cells_colour(
    grid: ShipGrid,
    colors: ModuleColors,
    origin: IVec2,
    size: UVec2,
    p: (int, int),
)
    requires
        grid@.contains_key(p),
        0 <= p.0 - origin.x < size.x,
        0 <= p.1 - origin.y < size.y,
    ensures
        ({
            let i = 4 * ((size.y - 1 - (p.1 - origin.y)) * size.x + (p.0 - origin.x));
            let c = match grid@[p].kind {
                ShipModuleKind::Hull => colors.hull,
                ShipModuleKind::Thruster => colors.thruster,
                ShipModuleKind::Reactor => colors.reactor,
            };
            &&& 0 <= i && i + 3 < byte_len(size)
            &&& raster_byte(grid@, colors, origin, size, i) == c.r
            &&& raster_byte(grid@, colors, origin, size, i + 1) == c.g
            &&& raster_byte(grid@, colors, origin, size, i + 2) == c.b
            &&& raster_byte(grid@, colors, origin, size, i + 3) == c.a
        }),
{
    let lx = p.0 - origin.x;
    let ly = p.1 - origin.y;
    lemma_texel_of(origin, size, lx, ly, 0);
    lemma_texel_of(origin, size, lx, ly, 1);
    lemma_texel_of(origin, size, lx, ly, 2);
    lemma_texel_of(origin, size, lx, ly, 3);
}

/// Every listed face belongs to a cell whose kind is selected, and nothing at
/// all sits on the side its exhaust leaves through (west of a face pushing
/// east, east of one pushing west, below one pushing north, above one pushing
/// south).
pub proof fn lemma_listed_faces_are_selected_and_clear(
    grid: ShipGrid,
    thrusting: KindSet,
    f: ((int, int), Direction),
)
    requires
        firing_faces(grid@, thrusting).contains(f),
    ensures
        grid@.contains_key(f.0),
        grid@[f.0].kind == ShipModuleKind::Hull ==> thrusting.hull,
        grid@[f.0].kind == ShipModuleKind::Thruster ==> thrusting.thruster,
        grid@[f.0].kind == ShipModuleKind::Reactor ==> thrusting.reactor,
        f.1 == Direction::East ==> !grid@.contains_key((f.0.0 - 1, f.0.1)),
        f.1 == Direction::West ==> !grid@.contains_key((f.0.0 + 1, f.0.1)),
        f.1 == Direction::North ==> !grid@.contains_key((f.0.0, f.0.1 - 1)),
        f.1 == Direction::South ==> !grid@.contains_key((f.0.0, f.0.1 + 1)),
{
    lemma_firing_faces_exact(grid, thrusting);
}

/// Every face of a selected cell with nothing behind it is listed.
pub proof fn lemma_clear_faces_of_selected_cells_are_listed(
    grid: ShipGrid,
    thrusting: KindSet,
    p: (int, int),
    push: Direction,
)
    requires
        grid@.contains_key(p),
        (grid@[p].kind == ShipModuleKind::Hull && thrusting.hull) || (grid@[p].kind
            == ShipModuleKind::Thruster && thrusting.thruster) || (grid@[p].kind
            == ShipModuleKind::Reactor && thrusting.reactor),
        push == Direction::East ==> !grid@.contains_key((p.0 - 1, p.1)),
        push == Direction::West ==> !grid@.contains_key((p.0 + 1, p.1)),
        push == Direction::North ==> !grid@.contains_key((p.0, p.1 - 1)),
        push == Direction::South ==> !grid@.contains_key((p.0, p.1 + 1)),
    ensures
        firing_faces(grid@, thrusting).contains((p, push)),
{
    lemma_firing_faces_exact(grid, thrusting);
    assert(face_is_open(grid@, p, push));
}

impl View for ShipGrid {
    type V = Map<(int, int), ShipCell>;

    open spec fn view(&self) -> Map<(int, int), ShipCell> {
        ShipGrid::view(self)
    }
}

} // verus!
