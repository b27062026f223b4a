//! The pointer-gesture state machine that paints cells.
//!
//! A gesture starts with a press, previews itself while the pointer
//! hovers (the "hint" tint, on the display layer only), and commits its
//! paint on release. The invariant [`draw_wf`] ties the session to the
//! grid: a cell shows the hint tint exactly when it is recorded in
//! `last_hint`, and its committed color otherwise — so reverting the
//! recorded hints always restores the display layer exactly.

use crate::cell::{hint_of, Cell, CellEvent, Color};
use crate::grid::{
    box_result, hex_of_pos, in_footprint, line_result, pos_of_hex, Grid, Pos,
};
use crate::hex::{absi, coord_in_range, HexCoord};
use vstd::prelude::*;

verus! {

/// Largest release offset (in position units) the state machine accepts.
pub const RELEASE_DELTA_LIMIT: i64 = 99_000_000_000_000;

/// What a gesture paints.
#[derive(PartialEq, Eq, Structural, Debug, Clone, Copy)]
pub enum DrawMode {
    /// Paint single cells, freehand while dragging.
    Cell,
    /// Paint the outline (and optionally the interior) of a box.
    Box,
    /// Paint a straight line of cells.
    Line,
}

/// A selected span of cells.
#[derive(Debug, Clone, Copy)]
pub struct Selection {
    /// Where the selection started.
    pub start: HexCoord,
    /// Where it currently ends, once known.
    pub end: Option<HexCoord>,
}

/// What a single paint writes: a concrete color commits it; a hint only
/// tints the display layer.
enum DrawColor {
    Color(Color),
    Hint,
}

/// The draw session state.
pub struct Draw {
    /// The active tool.
    pub draw_mode: DrawMode,
    /// Whether box gestures also paint the interior.
    pub fill: bool,
    /// The current paint color.
    pub color: Color,
    /// The cell the active gesture started on, if one is active.
    pub start_cell: Option<HexCoord>,
    /// The cells currently tinted as a preview, in paint order.
    pub last_hint: Vec<HexCoord>,
}

/// The session invariant: the grid is well-formed, every recorded hint
/// is a real cell, the gesture start (if any) is a real cell, and a
/// cell's display layer shows the hint tint exactly when the cell is
/// recorded in `last_hint`, its committed color otherwise.
pub open spec fn draw_wf(d: Draw, g: Grid) -> bool {
    &&& g.wf()
    &&& forall|i: int|
        0 <= i < g.cells@.len() ==> (#[trigger] g.cells@[i]).display == (if d.last_hint@.contains(
            g.cells@[i].pos,
        ) {
            hint_of(g.cells@[i].color)
        } else {
            g.cells@[i].color
        })
    &&& forall|k: int| 0 <= k < d.last_hint@.len() ==> g.has_cell(#[trigger] d.last_hint@[k])
    &&& match d.start_cell {
        Some(c) => g.has_cell(c),
        None => true,
    }
}

/// A cell after one paint touches it.
pub open spec fn painted_cell(c: Cell, paint: Color, hint: bool) -> Cell {
    if hint {
        Cell { id: c.id, pos: c.pos, color: c.color, display: hint_of(c.color) }
    } else {
        Cell { id: c.id, pos: c.pos, color: paint, display: paint }
    }
}

/// `g1` is `g0` with exactly the cells at `coords` painted.
pub open spec fn painted_grid(
    g0: Grid,
    g1: Grid,
    coords: Seq<HexCoord>,
    paint: Color,
    hint: bool,
) -> bool {
    &&& g1.size == g0.size
    &&& g1.cells@.len() == g0.cells@.len()
    &&& forall|i: int|
        0 <= i < g0.cells@.len() ==> #[trigger] g1.cells@[i] == (if coords.contains(
            g0.cells@[i].pos,
        ) {
            painted_cell(g0.cells@[i], paint, hint)
        } else {
            g0.cells@[i]
        })
}

/// The coordinate a release offset resolves to, relative to the
/// starting cell's position.
pub open spec fn release_coord(start: HexCoord, delta: Pos) -> HexCoord {
    let x: int = pos_of_hex(start).0 + delta.x;
    let y: int = pos_of_hex(start).1 + delta.y;
    HexCoord { q: hex_of_pos(x, y).0 as i32, r: hex_of_pos(x, y).1 as i32 }
}

/// Paint every listed cell with the same stroke, in order.
fn paint_all(grid: &mut Grid, coords: &Vec<HexCoord>, paint: &Color, hint: bool)
    requires
        old(grid).wf(),
        forall|k: int| 0 <= k < coords@.len() ==> old(grid).has_cell(#[trigger] coords@[k]),
    ensures
        final(grid).wf(),
        painted_grid(*old(grid), *final(grid), coords@, *paint, hint),
        forall|c: HexCoord| final(grid).has_cell(c) == old(grid).has_cell(c),
{
    let mut k: usize = 0;
    while k < coords.len()
        invariant
            grid.wf(),
            k <= coords@.len(),
            forall|kk: int| 0 <= kk < coords@.len() ==> old(grid).has_cell(#[trigger] coords@[kk]),
            painted_grid(*old(grid), *grid, coords@.subrange(0, k as int), *paint, hint),
            forall|c: HexCoord| grid.has_cell(c) == old(grid).has_cell(c),
        decreases coords@.len() - k,
    {
        let ghost mid: Grid = *grid;
        if hint {
            grid.paint_hint(&coords[k]);
        } else {
            grid.paint_committed(&coords[k], paint);
        }
        proof {
            assert(coords@.subrange(0, k as int + 1) =~= coords@.subrange(0, k as int).push(
                coords@[k as int],
            ));
            assert forall|i: int| 0 <= i < old(grid).cells@.len() implies #[trigger] grid.cells@[i]
                == (if coords@.subrange(0, k as int + 1).contains(old(grid).cells@[i].pos) {
                painted_cell(old(grid).cells@[i], *paint, hint)
            } else {
                old(grid).cells@[i]
            }) by {
                vstd::seq_lib::lemma_seq_contains_after_push(
                    coords@.subrange(0, k as int),
                    coords@[k as int],
                    old(grid).cells@[i].pos,
                );
                assert(mid.cells@[i] == (if coords@.subrange(0, k as int).contains(
                    old(grid).cells@[i].pos,
                ) {
                    painted_cell(old(grid).cells@[i], *paint, hint)
                } else {
                    old(grid).cells@[i]
                }));
            }
        }
        k = k + 1;
    }
    proof {
        assert(coords@.subrange(0, coords@.len() as int) =~= coords@);
    }
}

impl Default for Draw {
    /// A fresh session: cell tool, filled boxes, blue paint, no active
    /// gesture and no hints.
    fn default() -> (d: Self)
        ensures
            d.draw_mode == DrawMode::Cell,
            d.fill == true,
            d.color == (Color { red: 0, green: 0, blue: 255, alpha: 255 }),
            d.start_cell.is_none(),
            d.last_hint@.len() == 0,
    {
        Self {
            draw_mode: DrawMode::Cell,
            fill: true,
            color: Color { red: 0, green: 0, blue: 255, alpha: 255 },
            start_cell: None,
            last_hint: Vec::new(),
        }
    }
}

impl Draw {
    /// Revert every cell recorded in `last_hint` to its committed color
    /// and forget the hints.
    fn reset_hints(&mut self, grid: &mut Grid)
        requires
            draw_wf(*old(self), *old(grid)),
        ensures
            draw_wf(*final(self), *final(grid)),
            final(self).draw_mode == old(self).draw_mode,
            final(self).fill == old(self).fill,
            final(self).color == old(self).color,
            final(self).start_cell == old(self).start_cell,
            final(self).last_hint@.len() == 0,
            final(grid).size == old(grid).size,
            final(grid).cells@.len() == old(grid).cells@.len(),
            forall|i: int|
                0 <= i < old(grid).cells@.len() ==> #[trigger] final(grid).cells@[i] == (Cell {
                    id: old(grid).cells@[i].id,
                    pos: old(grid).cells@[i].pos,
                    color: old(grid).cells@[i].color,
                    display: old(grid).cells@[i].color,
                }),
            forall|c: HexCoord| final(grid).has_cell(c) == old(grid).has_cell(c),
    {
        proof {
            assert(old(self).last_hint@.skip(0) =~= old(self).last_hint@);
        }
        let mut k: usize = 0;
        while k < self.last_hint.len()
            invariant
                grid.wf(),
                k <= self.last_hint@.len(),
                self.last_hint@ == old(self).last_hint@,
                forall|kk: int|
                    0 <= kk < self.last_hint@.len() ==> old(grid).has_cell(
                        #[trigger] self.last_hint@[kk],
                    ),
                grid.size == old(grid).size,
                grid.cells@.len() == old(grid).cells@.len(),
                forall|i: int|
                    0 <= i < old(grid).cells@.len() ==> {
                        let oc = old(grid).cells@[i];
                        let nc = #[trigger] grid.cells@[i];
                        nc.id == oc.id && nc.pos == oc.pos && nc.color == oc.color && (nc.display
                            == oc.color || (self.last_hint@.skip(k as int).contains(oc.pos)
                            && nc.display == hint_of(oc.color)))
                    },
                forall|c: HexCoord| grid.has_cell(c) == old(grid).has_cell(c),
            decreases self.last_hint@.len() - k,
        {
            let ghost mid: Grid = *grid;
            let p = self.last_hint[k];
            grid.restore_display(&p);
            proof {
                assert forall|i: int| 0 <= i < old(grid).cells@.len() implies {
                    let oc = old(grid).cells@[i];
                    let nc = #[trigger] grid.cells@[i];
                    nc.id == oc.id && nc.pos == oc.pos && nc.color == oc.color && (nc.display
                        == oc.color || (self.last_hint@.skip(k as int + 1).contains(oc.pos)
                        && nc.display == hint_of(oc.color)))
                } by {
                    let oc = old(grid).cells@[i];
                    if mid.cells@[i].pos == p {
                    } else {
                        if mid.cells@[i].display != oc.color {
                            assert(self.last_hint@.skip(k as int).contains(oc.pos));
                            let j: int = choose|j: int|
                                0 <= j < self.last_hint@.skip(k as int).len()
                                    && self.last_hint@.skip(k as int)[j] == oc.pos;
                            assert(j != 0);
                            assert(self.last_hint@.skip(k as int + 1)[j - 1] == oc.pos);
                        }
                    }
                }
            }
            k = k + 1;
        }
        proof {
            assert forall|i: int| 0 <= i < old(grid).cells@.len() implies #[trigger] grid.cells@[i]
                == (Cell {
                id: old(grid).cells@[i].id,
                pos: old(grid).cells@[i].pos,
                color: old(grid).cells@[i].color,
                display: old(grid).cells@[i].color,
            }) by {
                assert(self.last_hint@.skip(self.last_hint@.len() as int).len() == 0);
            }
        }
        self.last_hint = Vec::new();
    }
}

/// The populated cells of one axial column `q`, rows `r0 .. r1`, in row
/// order.
pub open spec fn col_hits(g: Grid, q: int, r0: int, r1: int) -> Seq<HexCoord>
    decreases r1 - r0,
{
    if r1 <= r0 {
        Seq::empty()
    } else {
        col_hits(g, q, r0, r1 - 1) + (if g.has_cell(HexCoord { q: q as i32, r: (r1 - 1) as i32 }) {
            seq![HexCoord { q: q as i32, r: (r1 - 1) as i32 }]
        } else {
            Seq::empty()
        })
    }
}

/// The populated cells of the axial rectangle `q0 .. q1` by `r0 .. r1`,
/// column-major.
pub open spec fn rect_hits(g: Grid, q0: int, q1: int, r0: int, r1: int) -> Seq<HexCoord>
    decreases q1 - q0,
{
    if q1 <= q0 {
        Seq::empty()
    } else {
        rect_hits(g, q0, q1 - 1, r0, r1) + col_hits(g, q1 - 1, r0, r1)
    }
}

/// Everything a box gesture paints: the outline, and, when `fill` is
/// set, every populated coordinate of the axial rectangle spanned by
/// the two corners (exclusive of the upper bounds, as the original
/// half-open ranges have it).
pub open spec fn box_paint_set(g: Grid, s: HexCoord, e: HexCoord, fill: bool) -> Seq<HexCoord> {
    box_result(g, s, e) + (if fill {
        rect_hits(
            g,
            if s.q < e.q { s.q as int } else { e.q as int },
            if s.q < e.q { e.q as int } else { s.q as int },
            if s.r < e.r { s.r as int } else { e.r as int },
            if s.r < e.r { e.r as int } else { s.r as int },
        )
    } else {
        Seq::empty()
    })
}

/// Two grids that populate the same coordinates fill a column
/// identically.
proof fn lemma_col_hits_congruent(g1: Grid, g2: Grid, q: int, r0: int, r1: int)
    requires
        forall|c: HexCoord| #[trigger] g1.has_cell(c) == g2.has_cell(c),
    ensures
        col_hits(g1, q, r0, r1) == col_hits(g2, q, r0, r1),
    decreases r1 - r0,
{
    if r1 > r0 {
        lemma_col_hits_congruent(g1, g2, q, r0, r1 - 1);
        assert(g1.has_cell(HexCoord { q: q as i32, r: (r1 - 1) as i32 }) == g2.has_cell(
            HexCoord { q: q as i32, r: (r1 - 1) as i32 },
        ));
    }
}

/// Two grids that populate the same coordinates fill a rectangle
/// identically.
proof fn lemma_rect_hits_congruent(g1: Grid, g2: Grid, q0: int, q1: int, r0: int, r1: int)
    requires
        forall|c: HexCoord| #[trigger] g1.has_cell(c) == g2.has_cell(c),
    ensures
        rect_hits(g1, q0, q1, r0, r1) == rect_hits(g2, q0, q1, r0, r1),
    decreases q1 - q0,
{
    if q1 > q0 {
        lemma_rect_hits_congruent(g1, g2, q0, q1 - 1, r0, r1);
        lemma_col_hits_congruent(g1, g2, q1 - 1, r0, r1);
    }
}

/// Two grids that populate the same coordinates give a box gesture the
/// same paint set.
pub proof fn lemma_box_paint_set_congruent(g1: Grid, g2: Grid, s: HexCoord, e: HexCoord, fill: bool)
    requires
        forall|c: HexCoord| #[trigger] g1.has_cell(c) == g2.has_cell(c),
    ensures
        box_paint_set(g1, s, e, fill) == box_paint_set(g2, s, e, fill),
{
    crate::grid::lemma_box_result_congruent(g1, g2, s, e);
    if fill {
        lemma_rect_hits_congruent(
            g1,
            g2,
            if s.q < e.q { s.q as int } else { e.q as int },
            if s.q < e.q { e.q as int } else { s.q as int },
            if s.r < e.r { s.r as int } else { e.r as int },
            if s.r < e.r { e.r as int } else { s.r as int },
        );
    }
}

/// When the hint list is empty, the session invariant says every cell
/// shows exactly its committed color. A release and a mode switch both
/// end with an empty hint list (see their contracts), so after either,
/// no cell's display differs from its stored color.
pub proof fn lemma_hint_reversal(d: Draw, g: Grid)
    requires
        draw_wf(d, g),
        d.last_hint@.len() == 0,
    ensures
        forall|i: int|
            0 <= i < g.cells@.len() ==> (#[trigger] g.cells@[i]).display == g.cells@[i].color,
{
}

impl Draw {
    /// Paint one cell: commit a concrete color, or tint the display
    /// layer with the hint shade. A missing coordinate is left alone.
    fn draw_cell_color(cell: &HexCoord, color: DrawColor, grid: &mut Grid)
        requires
            old(grid).wf(),
        ensures
            final(grid).wf(),
            final(grid).size == old(grid).size,
            final(grid).cells@.len() == old(grid).cells@.len(),
            forall|i: int|
                0 <= i < old(grid).cells@.len() ==> #[trigger] final(grid).cells@[i] == (if old(grid).cells@[i].pos == *cell {
                    match color {
                        DrawColor::Color(p) => painted_cell(old(grid).cells@[i], p, false),
                        DrawColor::Hint => painted_cell(
                            old(grid).cells@[i],
                            old(grid).cells@[i].color,
                            true,
                        ),
                    }
                } else {
                    old(grid).cells@[i]
                }),
            forall|c: HexCoord| final(grid).has_cell(c) == old(grid).has_cell(c),
    {
        match color {
            DrawColor::Color(p) => grid.paint_committed(cell, &p),
            DrawColor::Hint => grid.paint_hint(cell),
        }
    }

    /// Paint one cell with the session's color, or hint it.
    fn draw_cell(&self, cell: &HexCoord, grid: &mut Grid, hint: bool)
        requires
            old(grid).wf(),
        ensures
            final(grid).wf(),
            final(grid).size == old(grid).size,
            final(grid).cells@.len() == old(grid).cells@.len(),
            forall|i: int|
                0 <= i < old(grid).cells@.len() ==> #[trigger] final(grid).cells@[i] == (if old(grid).cells@[i].pos == *cell {
                    painted_cell(old(grid).cells@[i], self.color, hint)
                } else {
                    old(grid).cells@[i]
                }),
            forall|c: HexCoord| final(grid).has_cell(c) == old(grid).has_cell(c),
    {
        Self::draw_cell_color(
            cell,
            if hint {
                DrawColor::Hint
            } else {
                DrawColor::Color(self.color)
            },
            grid,
        );
    }

    /// Paint (or hint) the line of cells from `start` to `end`, and
    /// record what was painted when hinting.
    fn draw_line(&mut self, start: &HexCoord, end: &HexCoord, grid: &mut Grid, hint: bool)
        requires
            draw_wf(*old(self), *old(grid)),
            old(self).last_hint@.len() == 0,
            coord_in_range(*start),
            coord_in_range(*end),
        ensures
            draw_wf(*final(self), *final(grid)),
            final(self).draw_mode == old(self).draw_mode,
            final(self).fill == old(self).fill,
            final(self).color == old(self).color,
            final(self).start_cell == old(self).start_cell,
            painted_grid(
                *old(grid),
                *final(grid),
                line_result(*old(grid), *start, *end),
                old(self).color,
                hint,
            ),
            final(self).last_hint@ == (if hint {
                line_result(*old(grid), *start, *end)
            } else {
                Seq::<HexCoord>::empty()
            }),
            forall|c: HexCoord| final(grid).has_cell(c) == old(grid).has_cell(c),
    {
        let cells = grid.get_cells_in_line(start, end);
        paint_all(grid, &cells, &self.color, hint);
        if hint {
            self.last_hint = cells;
        } else {
            self.last_hint = Vec::new();
        }
        proof {
            lemma_painted_keeps_wf(*old(self), *old(grid), *self, *grid, cells@, hint);
        }
    }

    /// Paint (or hint) the outline of the box between `start` and
    /// `end`, plus its interior when `fill` is set, and record what was
    /// painted when hinting.
    fn draw_box(&mut self, start: &HexCoord, end: &HexCoord, grid: &mut Grid, hint: bool)
        requires
            draw_wf(*old(self), *old(grid)),
            old(self).last_hint@.len() == 0,
            old(grid).has_cell(*start),
            old(grid).has_cell(*end),
        ensures
            draw_wf(*final(self), *final(grid)),
            final(self).draw_mode == old(self).draw_mode,
            final(self).fill == old(self).fill,
            final(self).color == old(self).color,
            final(self).start_cell == old(self).start_cell,
            painted_grid(
                *old(grid),
                *final(grid),
                box_paint_set(*old(grid), *start, *end, old(self).fill),
                old(self).color,
                hint,
            ),
            final(self).last_hint@ == (if hint {
                box_paint_set(*old(grid), *start, *end, old(self).fill)
            } else {
                Seq::<HexCoord>::empty()
            }),
            forall|c: HexCoord| final(grid).has_cell(c) == old(grid).has_cell(c),
    {
        let mut all = grid.get_cells_in_box(start, end);
        if self.fill {
            proof {
                grid.lemma_cells_in_range();
                let i: int = choose|i: int|
                    0 <= i < grid.cells@.len() && grid.cells@[i].pos == *start;
                assert(coord_in_range(grid.cells@[i].pos));
                let j: int = choose|j: int|
                    0 <= j < grid.cells@.len() && grid.cells@[j].pos == *end;
                assert(coord_in_range(grid.cells@[j].pos));
            }
            let q0: i32 = if start.q < end.q {
                start.q
            } else {
                end.q
            };
            let q1: i32 = if start.q < end.q {
                end.q
            } else {
                start.q
            };
            let r0: i32 = if start.r < end.r {
                start.r
            } else {
                end.r
            };
            let r1: i32 = if start.r < end.r {
                end.r
            } else {
                start.r
            };
            let mut q: i32 = q0;
            while q < q1
                invariant
                    grid.wf(),
                    q0 <= q <= q1 || q == q0,
                    -500_000_000 <= q0 <= q1 <= 500_000_000,
                    -500_000_000 <= r0 <= r1 <= 500_000_000,
                    all@ == box_result(*grid, *start, *end) + rect_hits(
                        *grid,
                        q0 as int,
                        q as int,
                        r0 as int,
                        r1 as int,
                    ),
                    forall|k: int| 0 <= k < all@.len() ==> grid.has_cell(#[trigger] all@[k]),
                decreases q1 - q,
            {
                let mut r: i32 = r0;
                proof {
                    assert(col_hits(*grid, q as int, r0 as int, r0 as int) =~= Seq::<
                        HexCoord,
                    >::empty());
                }
                while r < r1
                    invariant
                        grid.wf(),
                        r0 <= r <= r1 || r == r0,
                        -500_000_000 <= q0 <= q <= q1 <= 500_000_000,
                        -500_000_000 <= r0 <= r1 <= 500_000_000,
                        all@ == box_result(*grid, *start, *end) + rect_hits(
                            *grid,
                            q0 as int,
                            q as int,
                            r0 as int,
                            r1 as int,
                        ) + col_hits(*grid, q as int, r0 as int, r as int),
                        forall|k: int| 0 <= k < all@.len() ==> grid.has_cell(#[trigger] all@[k]),
                    decreases r1 - r,
                {
                    let c = HexCoord { q, r };
                    if grid.contains_cell(&c) {
                        all.push(c);
                    }
                    proof {
                        assert(all@ =~= box_result(*grid, *start, *end) + rect_hits(
                            *grid,
                            q0 as int,
                            q as int,
                            r0 as int,
                            r1 as int,
                        ) + col_hits(*grid, q as int, r0 as int, r as int + 1));
                    }
                    r = r + 1;
                }
                proof {
                    assert(all@ =~= box_result(*grid, *start, *end) + rect_hits(
                        *grid,
                        q0 as int,
                        q as int + 1,
                        r0 as int,
                        r1 as int,
                    ));
                }
                q = q + 1;
            }
        }
        proof {
            if !self.fill {
                assert(all@ =~= box_paint_set(*grid, *start, *end, self.fill));
            } else {
                assert(all@ =~= box_paint_set(*grid, *start, *end, self.fill));
            }
        }
        paint_all(grid, &all, &self.color, hint);
        if hint {
            self.last_hint = all;
        } else {
            self.last_hint = Vec::new();
        }
        proof {
            lemma_painted_keeps_wf(
                *old(self),
                *old(grid),
                *self,
                *grid,
                box_paint_set(*old(grid), *start, *end, old(self).fill),
                hint,
            );
        }
    }

}

/// After painting a set of real cells on a hint-free session, the
/// session invariant holds again: with `hint`, the painted cells are
/// exactly the recorded ones; without, everything shows its committed
/// color.
proof fn lemma_painted_keeps_wf(
    d0: Draw,
    g0: Grid,
    d1: Draw,
    g1: Grid,
    coords: Seq<HexCoord>,
    hint: bool,
)
    requires
        draw_wf(d0, g0),
        d0.last_hint@.len() == 0,
        painted_grid(g0, g1, coords, d0.color, hint),
        g1.wf(),
        forall|c: HexCoord| g1.has_cell(c) == g0.has_cell(c),
        forall|k: int| 0 <= k < coords.len() ==> g0.has_cell(#[trigger] coords[k]),
        d1.last_hint@ == (if hint {
            coords
        } else {
            Seq::<HexCoord>::empty()
        }),
        d1.start_cell == d0.start_cell,
    ensures
        draw_wf(d1, g1),
{
    assert forall|i: int| 0 <= i < g1.cells@.len() implies (#[trigger] g1.cells@[i]).display == (
        if d1.last_hint@.contains(g1.cells@[i].pos) {
        hint_of(g1.cells@[i].color)
    } else {
        g1.cells@[i].color
    }) by {
        assert(g1.cells@[i] == (if coords.contains(g0.cells@[i].pos) {
            painted_cell(g0.cells@[i], d0.color, hint)
        } else {
            g0.cells@[i]
        }));
        assert(g0.cells@[i].display == g0.cells@[i].color);
    }
}

/// Switch the drawing tool. Any pending preview is reverted first, so
/// a mode switch never leaves a stale hint behind.
pub fn set_draw_mode(draw: &mut Draw, grid: &mut Grid, mode: DrawMode)
    requires
        draw_wf(*old(draw), *old(grid)),
    ensures
        draw_wf(*final(draw), *final(grid)),
        final(draw).draw_mode == mode,
        final(draw).fill == old(draw).fill,
        final(draw).color == old(draw).color,
        final(draw).start_cell == old(draw).start_cell,
        final(draw).last_hint@.len() == 0,
        final(grid).size == old(grid).size,
        final(grid).cells@.len() == old(grid).cells@.len(),
        forall|i: int|
            0 <= i < old(grid).cells@.len() ==> #[trigger] final(grid).cells@[i] == (Cell {
                id: old(grid).cells@[i].id,
                pos: old(grid).cells@[i].pos,
                color: old(grid).cells@[i].color,
                display: old(grid).cells@[i].color,
            }),
        forall|c: HexCoord| final(grid).has_cell(c) == old(grid).has_cell(c),
{
    draw.reset_hints(grid);
    draw.draw_mode = mode;
}

/// Drive the draw state machine with one pointer-gesture event.
///
/// - *Press*: any stale preview is reverted, the pressed cell becomes
///   the gesture start, and in cell mode it is painted at once.
/// - *Hover*: in cell mode an active gesture paints the hovered cell;
///   in box or line mode the previous preview is reverted and the
///   shape from the start cell to the hovered cell is previewed.
/// - *Release*: the preview is reverted; in box or line mode the shape
///   from the start cell to the cell the offset resolves to is
///   committed; the gesture ends. An offset that resolves outside the
///   grid commits nothing.
#[verifier::rlimit(100)]
pub fn on_draw(draw: &mut Draw, grid: &mut Grid, event: &CellEvent)
    requires
        draw_wf(*old(draw), *old(grid)),
        match *event {
            CellEvent::Released(d) => absi(d.x as int) <= RELEASE_DELTA_LIMIT && absi(d.y as int)
                <= RELEASE_DELTA_LIMIT,
            _ => true,
        },
    ensures
        draw_wf(*final(draw), *final(grid)),
        final(draw).draw_mode == old(draw).draw_mode,
        final(draw).fill == old(draw).fill,
        final(draw).color == old(draw).color,
        final(grid).size == old(grid).size,
        final(grid).cells@.len() == old(grid).cells@.len(),
        forall|c: HexCoord| final(grid).has_cell(c) == old(grid).has_cell(c),
        forall|i: int|
            0 <= i < old(grid).cells@.len() ==> (#[trigger] final(grid).cells@[i]).pos == old(grid).cells@[i].pos && final(grid).cells@[i].id == old(grid).cells@[i].id,
        match *event {
            CellEvent::Pressed(c) => {
                &&& final(draw).start_cell == (if old(grid).has_cell(c) {
                    Some(c)
                } else {
                    None::<HexCoord>
                })
                &&& final(draw).last_hint@.len() == 0
                &&& forall|i: int|
                    0 <= i < old(grid).cells@.len() ==> (#[trigger] final(grid).cells@[i]).color
                        == (if old(draw).draw_mode == DrawMode::Cell && old(grid).cells@[i].pos
                        == c {
                        old(draw).color
                    } else {
                        old(grid).cells@[i].color
                    })
            },
            CellEvent::Over(c) => {
                &&& final(draw).start_cell == old(draw).start_cell
                &&& (old(draw).draw_mode == DrawMode::Box || old(draw).draw_mode == DrawMode::Line)
                    ==> ((forall|i: int|
                    0 <= i < old(grid).cells@.len() ==> (#[trigger] final(grid).cells@[i]).color
                        == old(grid).cells@[i].color) && final(draw).last_hint@ == (match old(draw).start_cell {
                    Some(sc) => if old(grid).has_cell(c) {
                        if old(draw).draw_mode == DrawMode::Line {
                            line_result(*old(grid), sc, c)
                        } else {
                            box_paint_set(*old(grid), sc, c, old(draw).fill)
                        }
                    } else {
                        Seq::<HexCoord>::empty()
                    },
                    None => Seq::<HexCoord>::empty(),
                }))
                &&& (old(draw).draw_mode == DrawMode::Cell && old(draw).start_cell.is_some())
                    ==> (final(draw).last_hint@.len() == 0 && forall|i: int|
                    0 <= i < old(grid).cells@.len() ==> (#[trigger] final(grid).cells@[i]).color
                        == (if old(grid).cells@[i].pos == c {
                        old(draw).color
                    } else {
                        old(grid).cells@[i].color
                    }))
                &&& (old(draw).draw_mode == DrawMode::Cell && old(draw).start_cell.is_none())
                    ==> (final(draw).last_hint@ == old(draw).last_hint@ && forall|i: int|
                    0 <= i < old(grid).cells@.len() ==> #[trigger] final(grid).cells@[i] == old(grid).cells@[i])
            },
            CellEvent::Released(delta) => {
                &&& final(draw).start_cell.is_none()
                &&& final(draw).last_hint@.len() == 0
                &&& forall|i: int|
                    0 <= i < old(grid).cells@.len() ==> (#[trigger] final(grid).cells@[i]).display
                        == final(grid).cells@[i].color
                &&& match old(draw).start_cell {
                    Some(sc) => {
                        let e = release_coord(sc, delta);
                        if old(grid).has_cell(e) && old(draw).draw_mode == DrawMode::Line {
                            forall|i: int|
                                0 <= i < old(grid).cells@.len() ==> (#[trigger] final(grid).cells@[i]).color == (if line_result(*old(grid), sc, e).contains(
                                    old(grid).cells@[i].pos,
                                ) {
                                    old(draw).color
                                } else {
                                    old(grid).cells@[i].color
                                })
                        } else if old(grid).has_cell(e) && old(draw).draw_mode == DrawMode::Box {
                            forall|i: int|
                                0 <= i < old(grid).cells@.len() ==> (#[trigger] final(grid).cells@[i]).color == (if box_paint_set(
                                    *old(grid),
                                    sc,
                                    e,
                                    old(draw).fill,
                                ).contains(old(grid).cells@[i].pos) {
                                    old(draw).color
                                } else {
                                    old(grid).cells@[i].color
                                })
                        } else {
                            forall|i: int|
                                0 <= i < old(grid).cells@.len() ==> (#[trigger] final(grid).cells@[i]).color == old(grid).cells@[i].color
                        }
                    },
                    None => forall|i: int|
                        0 <= i < old(grid).cells@.len() ==> (#[trigger] final(grid).cells@[i]).color
                            == old(grid).cells@[i].color,
                }
            },
        },
{
    match event {
        CellEvent::Pressed(c) => {
            draw.reset_hints(grid);
            let present = grid.contains_cell(c);
            draw.start_cell = if present {
                Some(*c)
            } else {
                None
            };
            if matches!(draw.draw_mode, DrawMode::Cell) {
                let ghost mid: Grid = *grid;
                draw.draw_cell(c, grid, false);
                proof {
                    assert forall|i: int| 0 <= i < old(grid).cells@.len() implies (
                    #[trigger] grid.cells@[i]).color == (if old(draw).draw_mode == DrawMode::Cell
                        && old(grid).cells@[i].pos == *c {
                        old(draw).color
                    } else {
                        old(grid).cells@[i].color
                    }) by {
                        assert(mid.cells@[i].color == old(grid).cells@[i].color);
                    }
                }
            }
        },
        CellEvent::Released(delta) => {
            draw.reset_hints(grid);
            let ghost mid: Grid = *grid;
            match draw.start_cell {
                Some(sc) => {
                    proof {
                        grid.lemma_cells_in_range();
                        let i: int = choose|i: int|
                            0 <= i < grid.cells@.len() && grid.cells@[i].pos == sc;
                        assert(coord_in_range(grid.cells@[i].pos));
                        assert(in_footprint(grid.size as int, grid.cells@[i].pos));
                        assert(absi(sc.q as int) <= 125 && absi(sc.r as int) <= 125);
                    }
                    let sp = grid.hex_coord_to_pos(&sc);
                    let target = Pos { x: sp.x + delta.x, y: sp.y + delta.y };
                    let end_c = grid.pos_to_hex_coord(&target);
                    proof {
                        assert(end_c == release_coord(sc, *delta));
                    }
                    let present = grid.contains_cell(&end_c);
                    if present {
                        if matches!(draw.draw_mode, DrawMode::Line) {
                            proof {
                                let i: int = choose|i: int|
                                    0 <= i < grid.cells@.len() && grid.cells@[i].pos == end_c;
                                assert(coord_in_range(grid.cells@[i].pos));
                            }
                            draw.draw_line(&sc, &end_c, grid, false);
                            proof {
                                crate::grid::lemma_line_result_congruent(mid, *old(grid), sc, end_c);
                            }
                        } else if matches!(draw.draw_mode, DrawMode::Box) {
                            draw.draw_box(&sc, &end_c, grid, false);
                            proof {
                                lemma_box_paint_set_congruent(
                                    mid,
                                    *old(grid),
                                    sc,
                                    end_c,
                                    old(draw).fill,
                                );
                            }
                        }
                    }
                },
                None => {},
            }
            draw.start_cell = None;
            proof {
                lemma_hint_reversal(*draw, *grid);
            }
        },
        CellEvent::Over(c) => {
            match draw.draw_mode {
                DrawMode::Cell => {
                    if draw.start_cell.is_some() {
                        draw.reset_hints(grid);
                        let ghost mid: Grid = *grid;
                        draw.draw_cell(c, grid, false);
                        proof {
                            assert forall|i: int| 0 <= i < old(grid).cells@.len() implies (
                            #[trigger] grid.cells@[i]).color == (if old(draw).start_cell.is_some()
                                && old(grid).cells@[i].pos == *c {
                                old(draw).color
                            } else {
                                old(grid).cells@[i].color
                            }) by {
                                assert(mid.cells@[i].color == old(grid).cells@[i].color);
                            }
                        }
                    }
                },
                DrawMode::Box => {
                    draw.reset_hints(grid);
                    let ghost mid: Grid = *grid;
                    match draw.start_cell {
                        Some(sc) => {
                            let present = grid.contains_cell(c);
                            if present {
                                draw.draw_box(&sc, c, grid, true);
                                proof {
                                    lemma_box_paint_set_congruent(
                                        mid,
                                        *old(grid),
                                        sc,
                                        *c,
                                        old(draw).fill,
                                    );
                                }
                            }
                        },
                        None => {},
                    }
                },
                DrawMode::Line => {
                    draw.reset_hints(grid);
                    let ghost mid: Grid = *grid;
                    match draw.start_cell {
                        Some(sc) => {
                            let present = grid.contains_cell(c);
                            if present {
                                proof {
                                    grid.lemma_cells_in_range();
                                    let i: int = choose|i: int|
                                        0 <= i < grid.cells@.len() && grid.cells@[i].pos == sc;
                                    assert(coord_in_range(grid.cells@[i].pos));
                                    let j: int = choose|j: int|
                                        0 <= j < grid.cells@.len() && grid.cells@[j].pos == *c;
                                    assert(coord_in_range(grid.cells@[j].pos));
                                }
                                draw.draw_line(&sc, c, grid, true);
                                proof {
                                    crate::grid::lemma_line_result_congruent(
                                        mid,
                                        *old(grid),
                                        sc,
                                        *c,
                                    );
                                }
                            }
                        },
                        None => {},
                    }
                },
            }
        },
    }
}

} // verus!
