//! The grid: the populated cell set, the coordinate/pixel transform and
//! the geometric queries (neighbours, line, box).
//!
//! The transform uses a pointy-top orientation with cell size 35 and
//! spacing 1. Positions are fixed-point integers in millionths of a
//! pixel, and the orientation coefficients are rationals with
//! `sqrt(3)` taken as `1_732_050 / 1_000_000`. The backward coefficients
//! are the exact rational inverse of the forward ones, so converting a
//! cell's position back to a coordinate is the identity — a theorem
//! below, not an approximation.

use crate::cell::{hint_color, hint_of, Cell, Color};
use crate::hex::{
    absi, coord_in_range, hex_dist, hex_round_spec, lemma_hex_round_exact, COORD_LIMIT,
    FractionalHexCoord, HexCoord,
};
use vstd::prelude::*;

verus! {

/// Fixed-point positions carry this many units per pixel.
pub const POS_UNIT: i64 = 1_000_000;

/// Forward transform: `x = FWD_XQ * q + FWD_XR * r` (position units).
pub const FWD_XQ: i64 = 62_353_800;

/// Forward transform, `r` contribution to `x`.
pub const FWD_XR: i64 = 31_176_900;

/// Forward transform: `y = FWD_YR * r` (position units).
pub const FWD_YR: i64 = 54_000_000;

/// Backward transform: `q = (BWD_QX * x - BWD_QY * y) / BWD_DEN`.
pub const BWD_QX: i64 = 20_000;

/// Backward transform, `y` contribution to the `q` numerator.
pub const BWD_QY: i64 = 11_547;

/// Backward transform: `r = BWD_RY * y / BWD_DEN`.
pub const BWD_RY: i64 = 23_094;

/// Common denominator of the backward transform.
pub const BWD_DEN: i64 = 1_247_076_000_000;

/// Largest position magnitude the backward transform accepts.
pub const POS_LIMIT: i64 = 100_000_000_000_000;

/// Largest grid size the settings panel offers.
pub const MAX_GRID_SIZE: i32 = 250;

/// A pixel-plane position in fixed-point units of `1 / POS_UNIT` pixels.
#[derive(PartialEq, Eq, Structural, Hash, Debug, Clone, Copy)]
pub struct Pos {
    pub x: i64,
    pub y: i64,
}

/// A request to the grid from the settings panel.
pub enum GridEvent {
    /// Rebuild the grid for a new size (columns, rows).
    Resize(i32, i32),
}

/// The position of a coordinate under the forward transform.
pub open spec fn pos_of_hex(c: HexCoord) -> (int, int) {
    (FWD_XQ * c.q + FWD_XR * c.r, FWD_YR * c.r)
}

/// The coordinate nearest a position under the backward transform.
pub open spec fn hex_of_pos(x: int, y: int) -> (int, int) {
    hex_round_spec(BWD_QX * x - BWD_QY * y, BWD_RY * y, BWD_DEN as int)
}

/// A position small enough for the backward transform's arithmetic.
pub open spec fn pos_in_range(p: Pos) -> bool {
    &&& absi(p.x as int) <= POS_LIMIT
    &&& absi(p.y as int) <= POS_LIMIT
}

/// The hexagonal footprint of a grid of the given size: every coordinate
/// within cube distance `size / 2` of the origin.
pub open spec fn in_footprint(size: int, c: HexCoord) -> bool {
    &&& absi(c.q as int) <= size / 2
    &&& absi(c.r as int) <= size / 2
    &&& absi(c.q + c.r) <= size / 2
}

/// The grid owns every populated cell, keyed by coordinate.
pub struct Grid {
    /// Requested lattice extent; the populated set is exactly the
    /// footprint of this size.
    pub size: i32,
    /// The populated cells, one entry per coordinate.
    pub cells: Vec<Cell>,
}

impl Grid {
    /// There is a cell at the coordinate.
    pub open spec fn has_cell(self, c: HexCoord) -> bool {
        exists|i: int| 0 <= i < self.cells@.len() && self.cells@[i].pos == c
    }

    /// The index of the cell at a populated coordinate.
    pub open spec fn idx_of(self, c: HexCoord) -> int {
        choose|i: int| 0 <= i < self.cells@.len() && self.cells@[i].pos == c
    }

    /// The cell at a populated coordinate.
    pub open spec fn cell_at(self, c: HexCoord) -> Cell {
        self.cells@[self.idx_of(c)]
    }

    /// Well-formed: the size is in range, no coordinate appears twice,
    /// and the populated set is exactly the footprint of `size`.
    pub open spec fn wf(self) -> bool {
        &&& 0 <= self.size <= MAX_GRID_SIZE
        &&& forall|i: int, j: int|
            0 <= i < j < self.cells@.len() ==> self.cells@[i].pos != self.cells@[j].pos
        &&& forall|i: int|
            0 <= i < self.cells@.len() ==> in_footprint(self.size as int, #[trigger] self.cells@[i].pos)
        &&& forall|c: HexCoord| #[trigger] in_footprint(self.size as int, c) ==> self.has_cell(c)
    }

    /// In a well-formed grid, a cell's index is determined by its
    /// coordinate.
    pub proof fn lemma_idx_unique(self, c: HexCoord, i: int)
        requires
            self.wf(),
            0 <= i < self.cells@.len(),
            self.cells@[i].pos == c,
        ensures
            self.idx_of(c) == i,
            self.cell_at(c) == self.cells@[i],
            self.has_cell(c),
    {
        assert(self.has_cell(c));
        let j: int = self.idx_of(c);
        if i < j {
            assert(self.cells@[i].pos != self.cells@[j].pos);
        } else if j < i {
            assert(self.cells@[j].pos != self.cells@[i].pos);
        }
    }

    /// Every populated coordinate is small.
    pub proof fn lemma_cells_in_range(self)
        requires
            self.wf(),
        ensures
            forall|i: int|
                0 <= i < self.cells@.len() ==> coord_in_range(#[trigger] self.cells@[i].pos),
    {
        assert forall|i: int|
            0 <= i < self.cells@.len() implies coord_in_range(#[trigger] self.cells@[i].pos) by {
            assert(in_footprint(self.size as int, self.cells@[i].pos));
        }
    }

    /// The left, right, top and bottom edges of a grid of a given size.
    pub fn get_edges(size: i32) -> (edges: (i32, i32, i32, i32))
        requires
            0 <= size,
        ensures
            edges.0 == -(size as int / 2),
            edges.1 == size as int / 2,
            edges.2 == -(size as int / 2),
            edges.3 == size as int / 2,
    {
        let h: i32 = half_i32(size);
        (-h, h, -h, h)
    }

    /// Position of a coordinate on the pixel plane.
    pub fn hex_coord_to_pos(&self, coord: &HexCoord) -> (p: Pos)
        requires
            coord_in_range(*coord),
        ensures
            p.x == pos_of_hex(*coord).0,
            p.y == pos_of_hex(*coord).1,
    {
        Pos {
            x: FWD_XQ * coord.q as i64 + FWD_XR * coord.r as i64,
            y: FWD_YR * coord.r as i64,
        }
    }

    /// The coordinate nearest a pixel-plane position.
    pub fn pos_to_hex_coord(&self, pos: &Pos) -> (c: HexCoord)
        requires
            pos_in_range(*pos),
        ensures
            (c.q as int, c.r as int) == hex_of_pos(pos.x as int, pos.y as int),
    {
        let q_num: i64 = BWD_QX * pos.x - BWD_QY * pos.y;
        let r_num: i64 = BWD_RY * pos.y;
        HexCoord::round(FractionalHexCoord { q_num, r_num, den: BWD_DEN })
    }

    /// Build a grid of the given size: one fresh white cell for every
    /// coordinate of the footprint, with sequential identifiers.
    pub fn create(size: i32) -> (g: Grid)
        requires
            0 <= size <= MAX_GRID_SIZE,
        ensures
            g.wf(),
            g.size == size,
            forall|c: HexCoord| g.has_cell(c) <==> in_footprint(size as int, c),
            forall|i: int|
                0 <= i < g.cells@.len() ==> (#[trigger] g.cells@[i]).color == (Color {
                    red: 255,
                    green: 255,
                    blue: 255,
                    alpha: 255,
                }) && g.cells@[i].display == g.cells@[i].color,
    {
        let h: i32 = half_i32(size);
        let mut cells: Vec<Cell> = Vec::new();
        let mut r: i32 = -h;
        while r <= h
            invariant
                0 <= size <= 250,
                h == size as int / 2,
                0 <= h <= 125,
                -h <= r <= h + 1,
                forall|i: int|
                    0 <= i < cells@.len() ==> in_footprint(size as int, #[trigger] cells@[i].pos)
                        && cells@[i].pos.r < r,
                forall|c: HexCoord|
                    #[trigger] in_footprint(size as int, c) && c.r < r ==> exists|i: int|
                        0 <= i < cells@.len() && cells@[i].pos == c,
                forall|i: int, j: int|
                    0 <= i < j < cells@.len() ==> cells@[i].pos != cells@[j].pos,
                forall|i: int|
                    0 <= i < cells@.len() ==> (#[trigger] cells@[i]).color == (Color {
                        red: 255,
                        green: 255,
                        blue: 255,
                        alpha: 255,
                    }) && cells@[i].display == cells@[i].color,
            decreases h + 1 - r,
        {
            let mut q: i32 = -h;
            while q <= h
                invariant
                    0 <= size <= 250,
                    h == size as int / 2,
                    0 <= h <= 125,
                    -h <= r <= h,
                    -h <= q <= h + 1,
                    forall|i: int|
                        0 <= i < cells@.len() ==> in_footprint(size as int, #[trigger] cells@[i].pos)
                            && (cells@[i].pos.r < r || (cells@[i].pos.r == r && cells@[i].pos.q < q)),
                    forall|c: HexCoord|
                        #[trigger] in_footprint(size as int, c) && (c.r < r || (c.r == r && c.q < q))
                            ==> exists|i: int| 0 <= i < cells@.len() && cells@[i].pos == c,
                    forall|i: int, j: int|
                        0 <= i < j < cells@.len() ==> cells@[i].pos != cells@[j].pos,
                    forall|i: int|
                        0 <= i < cells@.len() ==> (#[trigger] cells@[i]).color == (Color {
                            red: 255,
                            green: 255,
                            blue: 255,
                            alpha: 255,
                        }) && cells@[i].display == cells@[i].color,
                decreases h + 1 - q,
            {
                let ghost prev: Seq<Cell> = cells@;
                if -h <= q + r && q + r <= h {
                    let white = Color { red: 255, green: 255, blue: 255, alpha: 255 };
                    let id: u64 = cells.len() as u64;
                    cells.push(Cell { id, pos: HexCoord { q, r }, color: white, display: white });
                }
                proof {
                    assert forall|c: HexCoord|
                        #[trigger] in_footprint(size as int, c) && (c.r < r || (c.r == r && c.q < q
                            + 1)) implies exists|i: int|
                        0 <= i < cells@.len() && cells@[i].pos == c by {
                        if c.r < r || (c.r == r && c.q < q) {
                            let i: int = choose|i: int| 0 <= i < prev.len() && prev[i].pos == c;
                            assert(cells@[i].pos == c);
                        } else {
                            assert(c.r == r && c.q == q);
                            assert(absi(c.q + c.r) <= size as int / 2);
                            assert(cells@[prev.len() as int].pos == c);
                        }
                    }
                }
                q = q + 1;
            }
            proof {
                assert forall|c: HexCoord|
                    #[trigger] in_footprint(size as int, c) && c.r < r + 1 implies exists|i: int|
                    0 <= i < cells@.len() && cells@[i].pos == c by {
                    assert(absi(c.q as int) <= size as int / 2);
                }
            }
            r = r + 1;
        }
        proof {
            assert forall|c: HexCoord| #[trigger] in_footprint(size as int, c) implies exists|i: int|
                0 <= i < cells@.len() && cells@[i].pos == c by {
                assert(absi(c.r as int) <= size as int / 2);
            }
        }
        let g = Grid { size, cells };
        proof {
            assert forall|c: HexCoord| g.has_cell(c) implies in_footprint(size as int, c) by {
                let i: int = choose|i: int| 0 <= i < g.cells@.len() && g.cells@[i].pos == c;
                assert(in_footprint(size as int, g.cells@[i].pos));
            }
            assert forall|c: HexCoord| #[trigger] in_footprint(size as int, c) implies g.has_cell(
                c,
            ) by {
                let i: int = choose|i: int| 0 <= i < cells@.len() && cells@[i].pos == c;
                assert(g.cells@[i].pos == c);
            }
        }
        g
    }
}

/// A cell position's round trip through the transform is the identity:
/// converting a coordinate to its pixel position and back yields the
/// same coordinate, for every coordinate up to a million cells out —
/// far beyond any configured grid radius.
pub proof fn lemma_pos_round_trip(c: HexCoord)
    requires
        absi(c.q as int) <= 1_000_000,
        absi(c.r as int) <= 1_000_000,
    ensures
        hex_of_pos(pos_of_hex(c).0, pos_of_hex(c).1) == (c.q as int, c.r as int),
        absi(pos_of_hex(c).0) <= POS_LIMIT,
        absi(pos_of_hex(c).1) <= POS_LIMIT,
{
    let x: int = FWD_XQ * c.q + FWD_XR * c.r;
    let y: int = FWD_YR * c.r;
    assert(BWD_QX * x - BWD_QY * y == c.q * BWD_DEN);
    assert(BWD_RY * y == c.r * BWD_DEN);
    lemma_hex_round_exact(c.q as int, c.r as int, BWD_DEN as int);
}

impl Grid {
    /// Index of the cell at a coordinate, if any.
    pub fn find_cell(&self, pos: &HexCoord) -> (r: Option<usize>)
        ensures
            match r {
                Some(i) => i < self.cells@.len() && self.cells@[i as int].pos == *pos,
                None => !self.has_cell(*pos),
            },
    {
        let mut i: usize = 0;
        while i < self.cells.len()
            invariant
                i <= self.cells@.len(),
                forall|j: int| 0 <= j < i ==> self.cells@[j].pos != *pos,
            decreases self.cells@.len() - i,
        {
            if self.cells[i].pos == *pos {
                return Some(i);
            }
            i = i + 1;
        }
        None
    }

    /// Whether a coordinate is populated.
    pub fn contains_cell(&self, pos: &HexCoord) -> (r: bool)
        ensures
            r == self.has_cell(*pos),
    {
        match self.find_cell(pos) {
            Some(i) => {
                proof {
                    assert(self.cells@[i as int].pos == *pos);
                }
                true
            },
            None => false,
        }
    }

    /// The rendering-layer identifier of the cell at a coordinate.
    pub fn get_cell(&self, pos: &HexCoord) -> (r: Option<u64>)
        requires
            self.wf(),
        ensures
            r.is_some() <==> self.has_cell(*pos),
            r.is_some() ==> r == Some(self.cell_at(*pos).id),
    {
        match self.find_cell(pos) {
            Some(i) => {
                proof {
                    self.lemma_idx_unique(*pos, i as int);
                }
                Some(self.cells[i].id)
            },
            None => None,
        }
    }

    /// The stored (committed) color of the cell at a coordinate.
    pub fn get_stored_color(&self, pos: &HexCoord) -> (r: Option<Color>)
        requires
            self.wf(),
        ensures
            r.is_some() <==> self.has_cell(*pos),
            r.is_some() ==> r == Some(self.cell_at(*pos).color),
    {
        match self.find_cell(pos) {
            Some(i) => {
                proof {
                    self.lemma_idx_unique(*pos, i as int);
                }
                Some(self.cells[i].color)
            },
            None => None,
        }
    }

    /// The display color of the cell at a coordinate.
    pub fn get_display_color(&self, pos: &HexCoord) -> (r: Option<Color>)
        requires
            self.wf(),
        ensures
            r.is_some() <==> self.has_cell(*pos),
            r.is_some() ==> r == Some(self.cell_at(*pos).display),
    {
        match self.find_cell(pos) {
            Some(i) => {
                proof {
                    self.lemma_idx_unique(*pos, i as int);
                }
                Some(self.cells[i].display)
            },
            None => None,
        }
    }

    /// Two grids with the same size and cell positions are equally
    /// well-formed and populate the same coordinates.
    proof fn lemma_same_positions_wf(self, other: Grid)
        requires
            self.wf(),
            other.size == self.size,
            other.cells@.len() == self.cells@.len(),
            forall|i: int|
                0 <= i < self.cells@.len() ==> (#[trigger] other.cells@[i]).pos
                    == self.cells@[i].pos,
        ensures
            other.wf(),
            forall|c: HexCoord| other.has_cell(c) == self.has_cell(c),
    {
        assert forall|c: HexCoord| other.has_cell(c) == self.has_cell(c) by {
            if self.has_cell(c) {
                let i: int = choose|i: int|
                    0 <= i < self.cells@.len() && self.cells@[i].pos == c;
                assert(other.cells@[i].pos == c);
            }
            if other.has_cell(c) {
                let i: int = choose|i: int|
                    0 <= i < other.cells@.len() && other.cells@[i].pos == c;
                assert(self.cells@[i].pos == c);
            }
        }
        assert forall|c: HexCoord| #[trigger] in_footprint(other.size as int, c)
            implies other.has_cell(c) by {
            assert(self.has_cell(c));
        }
    }

    /// Commit a color at a coordinate: both the stored and the display
    /// layer take the new paint. A missing coordinate is left alone.
    pub fn paint_committed(&mut self, pos: &HexCoord, color: &Color)
        requires
            old(self).wf(),
        ensures
            final(self).wf(),
            final(self).size == old(self).size,
            final(self).cells@.len() == old(self).cells@.len(),
            forall|i: int|
                0 <= i < old(self).cells@.len() ==> #[trigger] final(self).cells@[i]
                    == (if old(self).cells@[i].pos == *pos {
                    (Cell {
                        id: old(self).cells@[i].id,
                        pos: old(self).cells@[i].pos,
                        color: *color,
                        display: *color,
                    })
                } else {
                    old(self).cells@[i]
                }),
            forall|c: HexCoord| final(self).has_cell(c) == old(self).has_cell(c),
    {
        match self.find_cell(pos) {
            Some(i) => {
                let c0 = self.cells[i];
                let slot = &mut self.cells[i];
                *slot = Cell { id: c0.id, pos: c0.pos, color: *color, display: *color };
                proof {
                    old(self).lemma_idx_unique(*pos, i as int);
                    old(self).lemma_same_positions_wf(*self);
                }
            },
            None => {
                proof {
                    old(self).lemma_same_positions_wf(*self);
                }
            },
        }
    }

    /// Preview a hint at a coordinate: the display layer takes the hint
    /// tint of the stored color; the stored color is untouched.
    pub fn paint_hint(&mut self, pos: &HexCoord)
        requires
            old(self).wf(),
        ensures
            final(self).wf(),
            final(self).size == old(self).size,
            final(self).cells@.len() == old(self).cells@.len(),
            forall|i: int|
                0 <= i < old(self).cells@.len() ==> #[trigger] final(self).cells@[i]
                    == (if old(self).cells@[i].pos == *pos {
                    (Cell {
                        id: old(self).cells@[i].id,
                        pos: old(self).cells@[i].pos,
                        color: old(self).cells@[i].color,
                        display: hint_of(old(self).cells@[i].color),
                    })
                } else {
                    old(self).cells@[i]
                }),
            forall|c: HexCoord| final(self).has_cell(c) == old(self).has_cell(c),
    {
        match self.find_cell(pos) {
            Some(i) => {
                let c0 = self.cells[i];
                let tint = hint_color(&c0.color);
                let slot = &mut self.cells[i];
                *slot = Cell { id: c0.id, pos: c0.pos, color: c0.color, display: tint };
                proof {
                    old(self).lemma_idx_unique(*pos, i as int);
                    old(self).lemma_same_positions_wf(*self);
                }
            },
            None => {
                proof {
                    old(self).lemma_same_positions_wf(*self);
                }
            },
        }
    }

    /// Revert the display layer at a coordinate to the stored color.
    pub fn restore_display(&mut self, pos: &HexCoord)
        requires
            old(self).wf(),
        ensures
            final(self).wf(),
            final(self).size == old(self).size,
            final(self).cells@.len() == old(self).cells@.len(),
            forall|i: int|
                0 <= i < old(self).cells@.len() ==> #[trigger] final(self).cells@[i]
                    == (if old(self).cells@[i].pos == *pos {
                    (Cell {
                        id: old(self).cells@[i].id,
                        pos: old(self).cells@[i].pos,
                        color: old(self).cells@[i].color,
                        display: old(self).cells@[i].color,
                    })
                } else {
                    old(self).cells@[i]
                }),
            forall|c: HexCoord| final(self).has_cell(c) == old(self).has_cell(c),
    {
        match self.find_cell(pos) {
            Some(i) => {
                let c0 = self.cells[i];
                let slot = &mut self.cells[i];
                *slot = Cell { id: c0.id, pos: c0.pos, color: c0.color, display: c0.color };
                proof {
                    old(self).lemma_idx_unique(*pos, i as int);
                    old(self).lemma_same_positions_wf(*self);
                }
            },
            None => {
                proof {
                    old(self).lemma_same_positions_wf(*self);
                }
            },
        }
    }
}

/// The `k`-th of the six axial unit directions, in the fixed order the
/// queries use.
pub open spec fn hex_dir(k: int) -> (int, int) {
    if k == 0 {
        (1, 0)
    } else if k == 1 {
        (1, -1)
    } else if k == 2 {
        (0, -1)
    } else if k == 3 {
        (-1, 0)
    } else if k == 4 {
        (-1, 1)
    } else {
        (0, 1)
    }
}

/// The `k`-th neighbour of a coordinate.
pub open spec fn nb(c: HexCoord, k: int) -> HexCoord
    recommends
        coord_in_range(c),
{
    HexCoord { q: (c.q + hex_dir(k).0) as i32, r: (c.r + hex_dir(k).1) as i32 }
}

/// The populated neighbours of `c` among the first `k` directions, in
/// direction order.
pub open spec fn nb_list(g: Grid, c: HexCoord, k: int) -> Seq<HexCoord>
    decreases k,
{
    if k <= 0 {
        Seq::empty()
    } else {
        nb_list(g, c, k - 1) + (if g.has_cell(nb(c, k - 1)) {
            seq![nb(c, k - 1)]
        } else {
            Seq::empty()
        })
    }
}

/// The rounded sample at parameter `i / n` on the straight path from
/// `a` to `b`, as a pair of integers.
pub open spec fn line_point(a: HexCoord, b: HexCoord, i: int, n: int) -> (int, int) {
    hex_round_spec(a.q * (n - i) + b.q * i, a.r * (n - i) + b.r * i, n)
}

/// The rounded sample at parameter `i / n` as a coordinate.
pub open spec fn line_coord(a: HexCoord, b: HexCoord, i: int, n: int) -> HexCoord {
    HexCoord { q: line_point(a, b, i, n).0 as i32, r: line_point(a, b, i, n).1 as i32 }
}

/// The populated cells among the first `k` samples of the line from `a`
/// to `b`, in sample order.
pub open spec fn line_hits(g: Grid, a: HexCoord, b: HexCoord, n: int, k: int) -> Seq<HexCoord>
    decreases k,
{
    if k <= 0 {
        Seq::empty()
    } else {
        line_hits(g, a, b, n, k - 1) + (if g.has_cell(line_coord(a, b, k - 1, n)) {
            seq![line_coord(a, b, k - 1, n)]
        } else {
            Seq::empty()
        })
    }
}

/// What a line query returns: the populated samples at `i / n` for
/// `i` in `0 .. n`, then the end coordinate itself if populated.
pub open spec fn line_result(g: Grid, a: HexCoord, b: HexCoord) -> Seq<HexCoord> {
    line_hits(g, a, b, hex_dist(a, b), hex_dist(a, b)) + (if g.has_cell(b) {
        seq![b]
    } else {
        Seq::empty()
    })
}

/// What a box query returns: the two pressed corners, then the four
/// edge lines of the outline through the two derived corners.
pub open spec fn box_result(g: Grid, s: HexCoord, e: HexCoord) -> Seq<HexCoord> {
    let c1 = HexCoord { q: s.q, r: e.r };
    let c2 = HexCoord { q: e.q, r: s.r };
    seq![s, e] + line_result(g, s, c1) + line_result(g, s, c2) + line_result(g, c1, e)
        + line_result(g, c2, e)
}

/// When every sample of the line is populated, the hit list keeps all
/// `k` samples in order.
proof fn lemma_line_hits_full(g: Grid, a: HexCoord, b: HexCoord, n: int, k: int)
    requires
        0 <= k <= n,
        forall|i: int| 0 <= i < n ==> g.has_cell(#[trigger] line_coord(a, b, i, n)),
    ensures
        line_hits(g, a, b, n, k).len() == k,
        forall|j: int| 0 <= j < k ==> line_hits(g, a, b, n, k)[j] == line_coord(a, b, j, n),
    decreases k,
{
    if k > 0 {
        lemma_line_hits_full(g, a, b, n, k - 1);
    }
}

/// Two distinct coordinates are at least one step apart.
pub proof fn lemma_dist_positive(a: HexCoord, b: HexCoord)
    requires
        a != b,
    ensures
        hex_dist(a, b) >= 1,
{
    if a.q == b.q && a.r == b.r {
        assert(a == b);
    }
}

/// Line endpoints inclusion: between two distinct populated
/// coordinates, when no intermediate sample falls outside the grid, the
/// line query returns exactly `distance + 1` cells, beginning at the
/// start coordinate and ending at the end coordinate.
pub proof fn lemma_line_endpoints(g: Grid, a: HexCoord, b: HexCoord)
    requires
        g.wf(),
        coord_in_range(a),
        coord_in_range(b),
        a != b,
        g.has_cell(a),
        g.has_cell(b),
        forall|i: int|
            0 <= i < hex_dist(a, b) ==> g.has_cell(
                #[trigger] line_coord(a, b, i, hex_dist(a, b)),
            ),
    ensures
        line_result(g, a, b).len() == hex_dist(a, b) + 1,
        line_result(g, a, b)[0] == a,
        line_result(g, a, b)[hex_dist(a, b) as int] == b,
{
    let n: int = hex_dist(a, b);
    lemma_dist_positive(a, b);
    lemma_line_hits_full(g, a, b, n, n);
    assert(a.q * (n - 0) + b.q * 0 == a.q * n);
    assert(a.r * (n - 0) + b.r * 0 == a.r * n);
    lemma_hex_round_exact(a.q as int, a.r as int, n);
    assert(line_point(a, b, 0, n) == (a.q as int, a.r as int));
    assert(line_result(g, a, b)[0] == line_coord(a, b, 0, n));
}

/// The coordinate a desired pixel position resolves to.
pub open spec fn desired_coord(p: Pos) -> HexCoord {
    HexCoord { q: hex_of_pos(p.x as int, p.y as int).0 as i32, r: hex_of_pos(p.x as int, p.y as int).1 as i32 }
}

/// The backward transform of an in-range position lands well inside
/// the coordinate range.
pub proof fn lemma_hex_of_pos_in_range(x: int, y: int)
    requires
        absi(x) <= POS_LIMIT,
        absi(y) <= POS_LIMIT,
    ensures
        absi(hex_of_pos(x, y).0) <= 3_000_000,
        absi(hex_of_pos(x, y).1) <= 3_000_000,
        hex_of_pos(x, y).0 as i32 == hex_of_pos(x, y).0,
        hex_of_pos(x, y).1 as i32 == hex_of_pos(x, y).1,
{
    let qn: int = BWD_QX * x - BWD_QY * y;
    let rn: int = BWD_RY * y;
    crate::hex::lemma_hex_round_near(qn, rn, BWD_DEN as int);
    crate::hex::lemma_scaled_bound(
        hex_round_spec(qn, rn, BWD_DEN as int).0,
        qn,
        BWD_DEN as int,
        2_600_000,
    );
    crate::hex::lemma_scaled_bound(
        hex_round_spec(qn, rn, BWD_DEN as int).1,
        rn,
        BWD_DEN as int,
        2_600_000,
    );
}

/// A populated neighbour appears in every long-enough neighbour list.
pub proof fn lemma_nb_list_has(g: Grid, c: HexCoord, k: int, m: int)
    requires
        0 <= k < m <= 6,
        g.has_cell(nb(c, k)),
    ensures
        nb_list(g, c, m).contains(nb(c, k)),
    decreases m,
{
    if k == m - 1 {
        assert(nb_list(g, c, m)[nb_list(g, c, m).len() - 1] == nb(c, k));
    } else {
        lemma_nb_list_has(g, c, k, m - 1);
        let i: int = choose|i: int|
            0 <= i < nb_list(g, c, m - 1).len() && #[trigger] nb_list(g, c, m - 1)[i] == nb(c, k);
        assert(nb_list(g, c, m)[i] == nb(c, k));
    }
}

/// Two grids that populate the same coordinates sample a line
/// identically.
pub proof fn lemma_line_hits_congruent(
    g1: Grid,
    g2: Grid,
    a: HexCoord,
    b: HexCoord,
    n: int,
    k: int,
)
    requires
        forall|c: HexCoord| #[trigger] g1.has_cell(c) == g2.has_cell(c),
    ensures
        line_hits(g1, a, b, n, k) == line_hits(g2, a, b, n, k),
    decreases k,
{
    if k > 0 {
        lemma_line_hits_congruent(g1, g2, a, b, n, k - 1);
        assert(g1.has_cell(line_coord(a, b, k - 1, n)) == g2.has_cell(line_coord(a, b, k - 1, n)));
    }
}

/// Two grids that populate the same coordinates give the same line
/// query result.
pub proof fn lemma_line_result_congruent(g1: Grid, g2: Grid, a: HexCoord, b: HexCoord)
    requires
        forall|c: HexCoord| #[trigger] g1.has_cell(c) == g2.has_cell(c),
    ensures
        line_result(g1, a, b) == line_result(g2, a, b),
{
    lemma_line_hits_congruent(g1, g2, a, b, hex_dist(a, b), hex_dist(a, b));
    assert(g1.has_cell(b) == g2.has_cell(b));
}

/// Two grids that populate the same coordinates give the same box
/// outline.
pub proof fn lemma_box_result_congruent(g1: Grid, g2: Grid, s: HexCoord, e: HexCoord)
    requires
        forall|c: HexCoord| #[trigger] g1.has_cell(c) == g2.has_cell(c),
    ensures
        box_result(g1, s, e) == box_result(g2, s, e),
{
    let c1 = HexCoord { q: s.q, r: e.r };
    let c2 = HexCoord { q: e.q, r: s.r };
    lemma_line_result_congruent(g1, g2, s, c1);
    lemma_line_result_congruent(g1, g2, s, c2);
    lemma_line_result_congruent(g1, g2, c1, e);
    lemma_line_result_congruent(g1, g2, c2, e);
}

impl Grid {
    /// The populated neighbours of a coordinate, in the fixed direction
    /// order.
    pub fn get_neighbours(&self, pos: &HexCoord) -> (res: Vec<HexCoord>)
        requires
            self.wf(),
            coord_in_range(*pos),
        ensures
            res@ == nb_list(*self, *pos, 6),
            forall|k: int| 0 <= k < res@.len() ==> self.has_cell(#[trigger] res@[k]),
    {
        let mut res: Vec<HexCoord> = Vec::new();
        let n0 = HexCoord { q: pos.q + 1, r: pos.r };
        if self.contains_cell(&n0) {
            res.push(n0);
        }
        proof {
            assert(nb_list(*self, *pos, 0) =~= Seq::<HexCoord>::empty());
            assert(n0 == nb(*pos, 0));
            assert(res@ =~= nb_list(*self, *pos, 1));
        }
        let n1 = HexCoord { q: pos.q + 1, r: pos.r - 1 };
        if self.contains_cell(&n1) {
            res.push(n1);
        }
        proof {
            assert(n1 == nb(*pos, 1));
            assert(res@ =~= nb_list(*self, *pos, 2));
        }
        let n2 = HexCoord { q: pos.q, r: pos.r - 1 };
        if self.contains_cell(&n2) {
            res.push(n2);
        }
        proof {
            assert(n2 == nb(*pos, 2));
            assert(res@ =~= nb_list(*self, *pos, 3));
        }
        let n3 = HexCoord { q: pos.q - 1, r: pos.r };
        if self.contains_cell(&n3) {
            res.push(n3);
        }
        proof {
            assert(n3 == nb(*pos, 3));
            assert(res@ =~= nb_list(*self, *pos, 4));
        }
        let n4 = HexCoord { q: pos.q - 1, r: pos.r + 1 };
        if self.contains_cell(&n4) {
            res.push(n4);
        }
        proof {
            assert(n4 == nb(*pos, 4));
            assert(res@ =~= nb_list(*self, *pos, 5));
        }
        let n5 = HexCoord { q: pos.q, r: pos.r + 1 };
        if self.contains_cell(&n5) {
            res.push(n5);
        }
        proof {
            assert(n5 == nb(*pos, 5));
            assert(res@ =~= nb_list(*self, *pos, 6));
        }
        res
    }

    /// The populated cells along the straight line from `start` to
    /// `end`: one rounded sample for each step of the distance, then the
    /// end itself; samples outside the grid are skipped.
    pub fn get_cells_in_line(&self, start: &HexCoord, end: &HexCoord) -> (res: Vec<HexCoord>)
        requires
            self.wf(),
            coord_in_range(*start),
            coord_in_range(*end),
        ensures
            res@ == line_result(*self, *start, *end),
            forall|k: int| 0 <= k < res@.len() ==> self.has_cell(#[trigger] res@[k]),
    {
        let n: i32 = start.distance(end);
        let mut res: Vec<HexCoord> = Vec::new();
        let mut i: i32 = 0;
        while i < n
            invariant
                self.wf(),
                coord_in_range(*start),
                coord_in_range(*end),
                n == hex_dist(*start, *end),
                0 <= i <= n || (n == 0 && i == 0),
                res@ == line_hits(*self, *start, *end, n as int, i as int),
                forall|k: int| 0 <= k < res@.len() ==> self.has_cell(#[trigger] res@[k]),
            decreases n - i,
        {
            let c = HexCoord::lerp(start, end, i as i64, n as i64);
            if self.contains_cell(&c) {
                res.push(c);
            }
            proof {
                assert(c == line_coord(*start, *end, i as int, n as int));
                assert(res@ =~= line_hits(*self, *start, *end, n as int, i as int + 1));
            }
            i = i + 1;
        }
        if self.contains_cell(end) {
            res.push(*end);
        }
        proof {
            assert(res@ =~= line_result(*self, *start, *end));
        }
        res
    }

    /// The outline of the box spanned by two populated corners: the
    /// corners themselves and the four edge lines through the two
    /// derived corners.
    pub fn get_cells_in_box(&self, start: &HexCoord, end: &HexCoord) -> (res: Vec<HexCoord>)
        requires
            self.wf(),
            self.has_cell(*start),
            self.has_cell(*end),
        ensures
            res@ == box_result(*self, *start, *end),
            forall|k: int| 0 <= k < res@.len() ==> self.has_cell(#[trigger] res@[k]),
    {
        proof {
            self.lemma_cells_in_range();
            let i: int = choose|i: int|
                0 <= i < self.cells@.len() && self.cells@[i].pos == *start;
            assert(coord_in_range(self.cells@[i].pos));
            let j: int = choose|j: int|
                0 <= j < self.cells@.len() && self.cells@[j].pos == *end;
            assert(coord_in_range(self.cells@[j].pos));
        }
        let c1 = HexCoord { q: start.q, r: end.r };
        let c2 = HexCoord { q: end.q, r: start.r };
        let mut res: Vec<HexCoord> = Vec::new();
        res.push(*start);
        res.push(*end);
        let mut l1 = self.get_cells_in_line(start, &c1);
        res.append(&mut l1);
        let mut l2 = self.get_cells_in_line(start, &c2);
        res.append(&mut l2);
        let mut l3 = self.get_cells_in_line(&c1, end);
        res.append(&mut l3);
        let mut l4 = self.get_cells_in_line(&c2, end);
        res.append(&mut l4);
        proof {
            assert(res@ =~= box_result(*self, *start, *end));
        }
        res
    }
}

impl Grid {
    /// Resize the grid in place: cells whose coordinates fall outside
    /// the new footprint are removed, cells for newly in-range
    /// coordinates are created fresh and white, and every retained cell
    /// keeps its identifier and both color layers.
    #[verifier::rlimit(60)]
    pub fn recreate(&mut self, size: i32)
        requires
            old(self).wf(),
            0 <= size <= MAX_GRID_SIZE,
        ensures
            final(self).wf(),
            final(self).size == size,
            forall|c: HexCoord| final(self).has_cell(c) <==> in_footprint(size as int, c),
            forall|c: HexCoord|
                in_footprint(size as int, c) && old(self).has_cell(c)
                    ==> final(self).cell_at(c) == old(self).cell_at(c),
            forall|c: HexCoord|
                in_footprint(size as int, c) && !old(self).has_cell(c)
                    ==> final(self).cell_at(c).pos == c && final(self).cell_at(c).color == (Color {
                    red: 255,
                    green: 255,
                    blue: 255,
                    alpha: 255,
                }) && final(self).cell_at(c).display == final(self).cell_at(c).color,
    {
        let mut kept: Vec<Cell> = Vec::new();
        let mut i: usize = 0;
        while i < self.cells.len()
            invariant
                0 <= size <= 250,
                0 <= self.size <= 250,
                i <= self.cells@.len(),
                forall|i1: int, j1: int|
                    0 <= i1 < j1 < self.cells@.len() ==> self.cells@[i1].pos
                        != self.cells@[j1].pos,
                forall|j: int|
                    0 <= j < self.cells@.len() ==> in_footprint(
                        self.size as int,
                        (#[trigger] self.cells@[j]).pos,
                    ),
                forall|k: int|
                    0 <= k < kept@.len() ==> exists|j: int|
                        0 <= j < i && self.cells@[j] == #[trigger] kept@[k],
                forall|j: int|
                    0 <= j < i && in_footprint(size as int, (#[trigger] self.cells@[j]).pos)
                        ==> exists|k: int| 0 <= k < kept@.len() && kept@[k] == self.cells@[j],
                forall|k: int|
                    0 <= k < kept@.len() ==> in_footprint(size as int, (#[trigger] kept@[k]).pos),
                forall|k1: int, k2: int|
                    0 <= k1 < k2 < kept@.len() ==> kept@[k1].pos != kept@[k2].pos,
            decreases self.cells@.len() - i,
        {
            let cell = self.cells[i];
            proof {
                assert(in_footprint(self.size as int, cell.pos));
            }
            let ghost prev_kept: Seq<Cell> = kept@;
            let keep = footprint_check(size, &cell.pos);
            if keep {
                proof {
                    assert forall|k: int| 0 <= k < kept@.len() implies kept@[k].pos != cell.pos by {
                        let j: int = choose|j: int| 0 <= j < i && self.cells@[j] == kept@[k];
                        assert(self.cells@[j].pos != self.cells@[i as int].pos);
                    }
                }
                kept.push(cell);
            }
            proof {
                assert forall|j: int|
                    0 <= j < i + 1 && in_footprint(size as int, (#[trigger] self.cells@[j]).pos)
                    implies exists|k: int| 0 <= k < kept@.len() && kept@[k] == self.cells@[j] by {
                    if j < i {
                        let k: int = choose|k: int|
                            0 <= k < prev_kept.len() && prev_kept[k] == self.cells@[j];
                        assert(kept@[k] == self.cells@[j]);
                    } else {
                        assert(keep);
                        assert(kept@[kept@.len() - 1] == self.cells@[i as int]);
                    }
                }
                assert forall|k: int| 0 <= k < kept@.len() implies exists|j: int|
                    0 <= j < i + 1 && self.cells@[j] == #[trigger] kept@[k] by {
                    if k < prev_kept.len() {
                        let j: int = choose|j: int|
                            0 <= j < i && self.cells@[j] == prev_kept[k];
                        assert(self.cells@[j] == kept@[k]);
                    } else {
                        assert(kept@[k] == self.cells@[i as int]);
                    }
                }
            }
            i = i + 1;
        }
        let ghost kept0: Seq<Cell> = kept@;
        let mut next_id: u64 = 0;
        let mut k: usize = 0;
        while k < kept.len()
            invariant
                k <= kept@.len(),
                kept@ == kept0,
            decreases kept@.len() - k,
        {
            if kept[k].id >= next_id && kept[k].id < 0xffff_ffff_ffff_ffff {
                next_id = kept[k].id + 1;
            }
            k = k + 1;
        }
        let ghost orig: Grid = *old(self);
        self.size = size;
        self.cells = kept;
        let h: i32 = half_i32(size);
        let mut r: i32 = -h;
        while r <= h
            invariant
                0 <= size <= 250,
                h == size as int / 2,
                0 <= h <= 125,
                -h <= r <= h + 1,
                self.size == size,
                self.cells@.len() >= kept0.len(),
                forall|k: int| 0 <= k < kept0.len() ==> self.cells@[k] == kept0[k],
                forall|k: int|
                    kept0.len() <= k < self.cells@.len() ==> (#[trigger] self.cells@[k]).color
                        == (Color { red: 255, green: 255, blue: 255, alpha: 255 })
                        && self.cells@[k].display == self.cells@[k].color,
                forall|k: int|
                    0 <= k < self.cells@.len() ==> in_footprint(
                        size as int,
                        (#[trigger] self.cells@[k]).pos,
                    ),
                forall|k1: int, k2: int|
                    0 <= k1 < k2 < self.cells@.len() ==> self.cells@[k1].pos
                        != self.cells@[k2].pos,
                forall|c: HexCoord|
                    #[trigger] in_footprint(size as int, c) && c.r < r ==> self.has_cell(c),
            decreases h + 1 - r,
        {
            let mut q: i32 = -h;
            while q <= h
                invariant
                    0 <= size <= 250,
                    h == size as int / 2,
                    0 <= h <= 125,
                    -h <= r <= h,
                    -h <= q <= h + 1,
                    self.size == size,
                    self.cells@.len() >= kept0.len(),
                    forall|k: int| 0 <= k < kept0.len() ==> self.cells@[k] == kept0[k],
                    forall|k: int|
                        kept0.len() <= k < self.cells@.len() ==> (#[trigger] self.cells@[k]).color
                            == (Color { red: 255, green: 255, blue: 255, alpha: 255 })
                            && self.cells@[k].display == self.cells@[k].color,
                    forall|k: int|
                        0 <= k < self.cells@.len() ==> in_footprint(
                            size as int,
                            (#[trigger] self.cells@[k]).pos,
                        ),
                    forall|k1: int, k2: int|
                        0 <= k1 < k2 < self.cells@.len() ==> self.cells@[k1].pos
                            != self.cells@[k2].pos,
                    forall|c: HexCoord|
                        #[trigger] in_footprint(size as int, c) && (c.r < r || (c.r == r && c.q
                            < q)) ==> self.has_cell(c),
                decreases h + 1 - q,
            {
                let ghost prev: Seq<Cell> = self.cells@;
                if -h <= q + r && q + r <= h {
                    let c = HexCoord { q, r };
                    match self.find_cell(&c) {
                        None => {
                            let white = Color { red: 255, green: 255, blue: 255, alpha: 255 };
                            self.cells.push(
                                Cell { id: next_id, pos: c, color: white, display: white },
                            );
                            next_id = if next_id < 0xffff_ffff_ffff_ffff {
                                next_id + 1
                            } else {
                                next_id
                            };
                        },
                        Some(_) => {},
                    }
                }
                proof {
                    assert forall|c: HexCoord|
                        #[trigger] in_footprint(size as int, c) && (c.r < r || (c.r == r && c.q < q
                            + 1)) implies self.has_cell(c) by {
                        if c.r < r || (c.r == r && c.q < q) {
                            let i0: int = choose|i0: int|
                                0 <= i0 < prev.len() && prev[i0].pos == c;
                            assert(self.cells@[i0].pos == c);
                        } else {
                            assert(c.r == r && c.q == q);
                            assert(absi(c.q + c.r) <= size as int / 2);
                            if exists|i0: int| 0 <= i0 < prev.len() && prev[i0].pos == c {
                                let i0: int = choose|i0: int|
                                    0 <= i0 < prev.len() && prev[i0].pos == c;
                                assert(self.cells@[i0].pos == c);
                            } else {
                                assert(self.cells@[prev.len() as int].pos == c);
                            }
                        }
                    }
                }
                q = q + 1;
            }
            proof {
                assert forall|c: HexCoord|
                    #[trigger] in_footprint(size as int, c) && c.r < r + 1 implies self.has_cell(
                    c,
                ) by {
                    assert(absi(c.q as int) <= size as int / 2);
                }
            }
            r = r + 1;
        }
        proof {
            assert forall|c: HexCoord| #[trigger] in_footprint(size as int, c)
                implies self.has_cell(c) by {
                assert(absi(c.r as int) <= size as int / 2);
            }
            assert forall|c: HexCoord| self.has_cell(c) implies in_footprint(size as int, c) by {
                let i0: int = choose|i0: int|
                    0 <= i0 < self.cells@.len() && self.cells@[i0].pos == c;
                assert(in_footprint(size as int, self.cells@[i0].pos));
            }
            assert(self.wf());
            assert forall|c: HexCoord|
                in_footprint(size as int, c) && orig.has_cell(c) implies self.cell_at(c)
                == orig.cell_at(c) by {
                let j: int = choose|j: int|
                    0 <= j < orig.cells@.len() && orig.cells@[j].pos == c;
                orig.lemma_idx_unique(c, j);
                assert(in_footprint(size as int, orig.cells@[j].pos));
                let k0: int = choose|k0: int|
                    0 <= k0 < kept0.len() && kept0[k0] == orig.cells@[j];
                assert(self.cells@[k0] == kept0[k0]);
                self.lemma_idx_unique(c, k0);
            }
            assert forall|c: HexCoord|
                in_footprint(size as int, c) && !orig.has_cell(c) implies self.cell_at(c).pos == c
                && self.cell_at(c).color == (Color {
                red: 255,
                green: 255,
                blue: 255,
                alpha: 255,
            }) && self.cell_at(c).display == self.cell_at(c).color by {
                let k0: int = choose|k0: int|
                    0 <= k0 < self.cells@.len() && self.cells@[k0].pos == c;
                self.lemma_idx_unique(c, k0);
                if k0 < kept0.len() {
                    assert(self.cells@[k0] == kept0[k0]);
                    let j: int = choose|j: int|
                        0 <= j < orig.cells@.len() && orig.cells@[j] == kept0[k0];
                    assert(orig.cells@[j].pos == c);
                }
            }
        }
    }
}

/// Apply a settings-panel request to the grid: a resize rebuilds the
/// footprint in place (see [`Grid::recreate`]).
pub fn on_grid_event(grid: &mut Grid, event: &GridEvent)
    requires
        old(grid).wf(),
        match *event {
            GridEvent::Resize(q, _) => 0 <= q <= MAX_GRID_SIZE,
        },
    ensures
        final(grid).wf(),
        match *event {
            GridEvent::Resize(q, _) => {
                &&& final(grid).size == q
                &&& forall|c: HexCoord| final(grid).has_cell(c) <==> in_footprint(q as int, c)
                &&& forall|c: HexCoord|
                    in_footprint(q as int, c) && old(grid).has_cell(c) ==> final(grid).cell_at(c)
                        == old(grid).cell_at(c)
            },
        },
{
    match event {
        GridEvent::Resize(q, _r) => grid.recreate(*q),
    }
}

/// Whether a coordinate lies in the footprint of a grid of some size.
fn footprint_check(size: i32, c: &HexCoord) -> (r: bool)
    requires
        0 <= size,
        coord_in_range(*c),
    ensures
        r == in_footprint(size as int, *c),
{
    let h: i64 = half_i32(size) as i64;
    let q: i64 = c.q as i64;
    let rr: i64 = c.r as i64;
    let aq: i64 = if q < 0 {
        -q
    } else {
        q
    };
    let ar: i64 = if rr < 0 {
        -rr
    } else {
        rr
    };
    let as_: i64 = if q + rr < 0 {
        -(q + rr)
    } else {
        q + rr
    };
    aq <= h && ar <= h && as_ <= h
}

/// Half of a small nonnegative `i32`, rounded toward zero.
fn half_i32(x: i32) -> (r: i32)
    requires
        0 <= x,
    ensures
        r == x as int / 2,
        0 <= r <= x,
{
    proof {
        vstd::arithmetic::div_mod::lemma_fundamental_div_mod(x as int, 2);
        vstd::arithmetic::div_mod::lemma_mod_bound(x as int, 2);
    }
    (x as u32 / 2) as i32
}

} // verus!
