//! Board tokens and the placement search that assigns them to free
//! cells.
//!
//! A batch of spawn requests is placed one token at a time: each token
//! takes the nearest free coordinate to its desired position, found by
//! a breadth-first search over the grid's neighbour graph, and claims
//! it, so no two tokens of the same batch ever share a cell.

use crate::cell::{highlight_color, highlight_of, Color};
use crate::grid::{
    desired_coord, lemma_hex_of_pos_in_range, lemma_nb_list_has, nb, nb_list, pos_in_range, Grid,
    Pos,
};
use crate::hex::{coord_in_range, HexCoord};
use crate::initiative_tracker::TrackerEvent;
use vstd::prelude::*;

verus! {

/// Whose side a token is on.
#[derive(PartialEq, Eq, Structural, Debug, Clone, Copy)]
pub enum TokenType {
    Party,
    Enemy,
}

/// Raised when the active creature changed.
pub struct TurnEvent;

/// A request to the token layer.
pub enum TokenEvent {
    /// Spawn several tokens near the given pixel positions.
    BatchSpawn(Vec<(Token, Pos)>),
}

/// A board token.
#[derive(Debug, Clone)]
pub struct Token {
    /// Display name.
    pub name: String,
    /// The creature this token stands for.
    pub creature_id: String,
    /// Whose side it is on.
    pub token_type: TokenType,
    /// The cell it occupies.
    pub coords: HexCoord,
    /// Its sprite tint.
    pub color: Color,
}

impl Token {
    /// Build a token from its parts.
    pub fn new(
        creature_id: &str,
        name: &str,
        token_type: TokenType,
        coords: &HexCoord,
        color: &Color,
    ) -> (t: Token)
        ensures
            t.name@ == name@,
            t.creature_id@ == creature_id@,
            t.token_type == token_type,
            t.coords == *coords,
            t.color == *color,
    {
        Token {
            name: String::from_str(name),
            creature_id: String::from_str(creature_id),
            token_type,
            coords: *coords,
            color: *color,
        }
    }
}

/// Whether a coordinate is in the list.
fn coord_listed(list: &Vec<HexCoord>, c: &HexCoord) -> (r: bool)
    ensures
        r == list@.contains(*c),
{
    let mut i: usize = 0;
    while i < list.len()
        invariant
            i <= list@.len(),
            forall|j: int| 0 <= j < i ==> list@[j] != *c,
        decreases list@.len() - i,
    {
        if list[i] == *c {
            proof {
                assert(list@[i as int] == *c);
            }
            return true;
        }
        i = i + 1;
    }
    false
}

/// Find a free coordinate nearest to `start`: `start` itself when it is
/// unoccupied, else the first free one of its populated neighbours in
/// the fixed direction order, else the first free cell met by a
/// breadth-first expansion over the grid's neighbours. Returns `None`
/// when the reachable cells are all occupied — an expected, reportable
/// outcome, not a failure.
pub fn find_empty_cells(taken_coords: &Vec<HexCoord>, grid: &Grid, start: HexCoord) -> (r: Option<
    HexCoord,
>)
    requires
        grid.wf(),
        coord_in_range(start),
    ensures
        match r {
            Some(c) => !taken_coords@.contains(c) && (c == start || grid.has_cell(c)),
            None => taken_coords@.contains(start) && forall|k: int|
                0 <= k < 6 ==> (grid.has_cell(#[trigger] nb(start, k)) ==> taken_coords@.contains(
                    nb(start, k),
                )),
        },
        !taken_coords@.contains(start) ==> r == Some(start),
        forall|s: int|
            taken_coords@.contains(start) && 0 <= s < nb_list(*grid, start, 6).len()
                && !taken_coords@.contains(#[trigger] nb_list(*grid, start, 6)[s]) && (forall|
                t: int,
            |
                0 <= t < s ==> taken_coords@.contains(#[trigger] nb_list(*grid, start, 6)[t]))
                ==> r == Some(nb_list(*grid, start, 6)[s]),
{
    if !coord_listed(taken_coords, &start) {
        return Some(start);
    }
    let nbs0 = grid.get_neighbours(&start);
    let mut t0: usize = 0;
    while t0 < nbs0.len()
        invariant
            taken_coords@.contains(start),
            t0 <= nbs0@.len(),
            nbs0@ == nb_list(*grid, start, 6),
            forall|s: int| 0 <= s < nbs0@.len() ==> grid.has_cell(#[trigger] nbs0@[s]),
            forall|s: int| 0 <= s < t0 ==> taken_coords@.contains(#[trigger] nbs0@[s]),
        decreases nbs0@.len() - t0,
    {
        if !coord_listed(taken_coords, &nbs0[t0]) {
            proof {
                assert forall|s: int|
                    taken_coords@.contains(start) && 0 <= s < nb_list(*grid, start, 6).len()
                        && !taken_coords@.contains(nb_list(*grid, start, 6)[s]) && (forall|t: int|
                        0 <= t < s ==> taken_coords@.contains(
                            #[trigger] nb_list(*grid, start, 6)[t],
                        )) implies nbs0@[t0 as int] == nb_list(*grid, start, 6)[s] by {
                    if s < t0 as int {
                        assert(taken_coords@.contains(nbs0@[s]));
                    } else if s > t0 as int {
                        assert(taken_coords@.contains(nb_list(*grid, start, 6)[t0 as int]));
                        assert(taken_coords@.contains(nbs0@[t0 as int]));
                    }
                }
            }
            return Some(nbs0[t0]);
        }
        t0 = t0 + 1;
    }
    let mut frontier: Vec<HexCoord> = Vec::new();
    frontier.push(start);
    let mut qi: usize = 0;
    while qi < frontier.len() && qi <= grid.cells.len()
        invariant
            grid.wf(),
            coord_in_range(start),
            taken_coords@.contains(start),
            qi <= frontier@.len(),
            frontier@.len() >= 1,
            frontier@[0] == start,
            forall|a: int, b: int| 0 <= a < b < frontier@.len() ==> frontier@[a] != frontier@[b],
            forall|a: int|
                0 <= a < frontier@.len() ==> (#[trigger] frontier@[a] == start || grid.has_cell(
                    frontier@[a],
                )),
            forall|a: int| 0 <= a < frontier@.len() ==> coord_in_range(#[trigger] frontier@[a]),
            forall|a: int, k: int|
                0 <= a < qi && 0 <= k < 6 ==> (grid.has_cell(#[trigger] nb(frontier@[a], k))
                    ==> taken_coords@.contains(nb(frontier@[a], k))),
            forall|s: int|
                0 <= s < nb_list(*grid, start, 6).len() ==> taken_coords@.contains(
                    #[trigger] nb_list(*grid, start, 6)[s],
                ),
        decreases grid.cells@.len() + 1 - qi,
    {
        let cur = frontier[qi];
        let nbs = grid.get_neighbours(&cur);
        let ghost frontier_at_entry: Seq<HexCoord> = frontier@;
        let mut t: usize = 0;
        while t < nbs.len()
            invariant
                grid.wf(),
                coord_in_range(start),
                taken_coords@.contains(start),
                t <= nbs@.len(),
                qi < frontier@.len(),
                frontier@[0] == start,
                frontier@[qi as int] == cur,
                forall|s: int| 0 <= s < nbs@.len() ==> grid.has_cell(#[trigger] nbs@[s]),
                forall|s: int| 0 <= s < t ==> taken_coords@.contains(#[trigger] nbs@[s]),
                forall|a: int, b: int|
                    0 <= a < b < frontier@.len() ==> frontier@[a] != frontier@[b],
                forall|a: int|
                    0 <= a < frontier@.len() ==> (#[trigger] frontier@[a] == start
                        || grid.has_cell(frontier@[a])),
                forall|a: int| 0 <= a < frontier@.len() ==> coord_in_range(#[trigger] frontier@[a]),
                forall|a: int, k: int|
                    0 <= a < qi && 0 <= k < 6 ==> (grid.has_cell(#[trigger] nb(frontier@[a], k))
                        ==> taken_coords@.contains(nb(frontier@[a], k))),
                forall|s: int|
                    0 <= s < nb_list(*grid, start, 6).len() ==> taken_coords@.contains(
                        #[trigger] nb_list(*grid, start, 6)[s],
                    ),
                frontier_at_entry.len() <= frontier@.len(),
                forall|a: int|
                    0 <= a < frontier_at_entry.len() ==> #[trigger] frontier@[a]
                        == frontier_at_entry[a],
            decreases nbs@.len() - t,
        {
            let cand = nbs[t];
            if !coord_listed(taken_coords, &cand) {
                return Some(cand);
            }
            if !coord_listed(&frontier, &cand) {
                proof {
                    grid.lemma_cells_in_range();
                    let i: int = choose|i: int|
                        0 <= i < grid.cells@.len() && grid.cells@[i].pos == cand;
                    assert(coord_in_range(grid.cells@[i].pos));
                }
                frontier.push(cand);
            }
            t = t + 1;
        }
        proof {
            assert forall|k: int|
                0 <= k < 6 && grid.has_cell(nb(frontier@[qi as int], k)) implies taken_coords@
                .contains(nb(frontier@[qi as int], k)) by {
                lemma_nb_list_has(*grid, cur, k, 6);
                let s: int = choose|s: int| 0 <= s < nbs@.len() && nbs@[s] == nb(cur, k);
                assert(taken_coords@.contains(nbs@[s]));
            }
        }
        qi = qi + 1;
    }
    proof {
        assert(qi >= 1);
        assert(frontier@[0] == start);
    }
    None
}

/// Handle a token request. A batch spawn resolves each desired pixel
/// position to its nearest free cell, claiming cells as the batch
/// proceeds so no two requests of the batch receive the same
/// coordinate. The result has one entry per request, in order; `None`
/// marks a request that found no free cell.
pub fn on_token_event(grid: &Grid, taken_coords: &mut Vec<HexCoord>, event: &TokenEvent) -> (r:
    Vec<Option<HexCoord>>)
    requires
        grid.wf(),
        match *event {
            TokenEvent::BatchSpawn(batch) => forall|k: int|
                0 <= k < batch@.len() ==> pos_in_range((#[trigger] batch@[k]).1),
        },
    ensures
        match *event {
            TokenEvent::BatchSpawn(batch) => {
                &&& r@.len() == batch@.len()
                &&& forall|k: int|
                    0 <= k < r@.len() ==> match #[trigger] r@[k] {
                        Some(c) => !old(taken_coords)@.contains(c) && (grid.has_cell(c) || c
                            == desired_coord(batch@[k].1)),
                        None => true,
                    }
                &&& forall|k1: int, k2: int|
                    0 <= k1 < k2 < r@.len() && r@[k1].is_some() && r@[k2].is_some() ==> r@[k1]
                        != r@[k2]
                &&& forall|c: HexCoord|
                    final(taken_coords)@.contains(c) <==> (old(taken_coords)@.contains(c) || exists|
                        k: int,
                    |
                        0 <= k < r@.len() && r@[k] == Some(c))
                &&& forall|k: int|
                    0 <= k < r@.len() && !old(taken_coords)@.contains(desired_coord(batch@[k].1))
                        && (forall|j: int|
                        0 <= j < k ==> #[trigger] r@[j] != Some(desired_coord(batch@[k].1)))
                        ==> #[trigger] r@[k] == Some(desired_coord(batch@[k].1))
            },
        },
{
    let TokenEvent::BatchSpawn(batch) = event;
    let mut r: Vec<Option<HexCoord>> = Vec::new();
    let mut k: usize = 0;
    while k < batch.len()
        invariant
            grid.wf(),
            forall|kk: int| 0 <= kk < batch@.len() ==> pos_in_range((#[trigger] batch@[kk]).1),
            k <= batch@.len(),
            r@.len() == k,
            forall|kk: int|
                0 <= kk < r@.len() ==> match #[trigger] r@[kk] {
                    Some(c) => !old(taken_coords)@.contains(c) && (grid.has_cell(c) || c
                        == desired_coord(batch@[kk].1)),
                    None => true,
                },
            forall|kk: int|
                0 <= kk < r@.len() ==> (#[trigger] r@[kk]).is_some() ==> taken_coords@.contains(
                    r@[kk].unwrap(),
                ),
            forall|k1: int, k2: int|
                0 <= k1 < k2 < r@.len() && r@[k1].is_some() && r@[k2].is_some() ==> r@[k1]
                    != r@[k2],
            forall|c: HexCoord|
                taken_coords@.contains(c) <==> (old(taken_coords)@.contains(c) || exists|kk: int|
                    0 <= kk < r@.len() && r@[kk] == Some(c)),
            forall|kk: int|
                0 <= kk < r@.len() && !old(taken_coords)@.contains(desired_coord(batch@[kk].1))
                    && (forall|j: int|
                    0 <= j < kk ==> #[trigger] r@[j] != Some(desired_coord(batch@[kk].1)))
                    ==> #[trigger] r@[kk] == Some(desired_coord(batch@[kk].1)),
        decreases batch@.len() - k,
    {
        let desired = grid.pos_to_hex_coord(&batch[k].1);
        proof {
            lemma_hex_of_pos_in_range(batch@[k as int].1.x as int, batch@[k as int].1.y as int);
            assert(desired == desired_coord(batch@[k as int].1));
        }
        let ghost taken_before: Seq<HexCoord> = taken_coords@;
        let ghost r_before: Seq<Option<HexCoord>> = r@;
        let found = find_empty_cells(taken_coords, grid, desired);
        match found {
            Some(c) => {
                taken_coords.push(c);
                r.push(Some(c));
                proof {
                    vstd::seq_lib::lemma_seq_contains_after_push(taken_before, c, c);
                    assert forall|cc: HexCoord| taken_coords@.contains(cc) implies (old(
                        taken_coords,
                    )@.contains(cc) || exists|kk: int|
                        0 <= kk < r@.len() && r@[kk] == Some(cc)) by {
                        vstd::seq_lib::lemma_seq_contains_after_push(taken_before, c, cc);
                        if cc == c {
                            assert(r@[r@.len() - 1] == Some(cc));
                        } else {
                            assert(taken_before.contains(cc));
                            if !old(taken_coords)@.contains(cc) {
                                let kk: int = choose|kk: int|
                                    0 <= kk < r_before.len() && #[trigger] r_before[kk] == Some(
                                        cc,
                                    );
                                assert(r@[kk] == Some(cc));
                            }
                        }
                    }
                    assert forall|cc: HexCoord|
                        (old(taken_coords)@.contains(cc) || exists|kk: int|
                            0 <= kk < r@.len() && r@[kk] == Some(cc)) implies taken_coords@
                        .contains(cc) by {
                        vstd::seq_lib::lemma_seq_contains_after_push(taken_before, c, cc);
                        if exists|kk: int| 0 <= kk < r@.len() && #[trigger] r@[kk] == Some(cc) {
                            let kk: int = choose|kk: int|
                                0 <= kk < r@.len() && #[trigger] r@[kk] == Some(cc);
                            if kk < r@.len() - 1 {
                                assert(r_before[kk] == Some(cc));
                                assert(taken_before.contains(cc));
                            }
                        }
                    }
                }
            },
            None => {
                r.push(None);
                proof {
                    assert forall|cc: HexCoord| taken_coords@.contains(cc) implies (old(
                        taken_coords,
                    )@.contains(cc) || exists|kk: int|
                        0 <= kk < r@.len() && r@[kk] == Some(cc)) by {
                        if !old(taken_coords)@.contains(cc) {
                            let kk: int = choose|kk: int|
                                0 <= kk < r_before.len() && #[trigger] r_before[kk] == Some(cc);
                            assert(r@[kk] == Some(cc));
                        }
                    }
                    assert forall|cc: HexCoord|
                        (old(taken_coords)@.contains(cc) || exists|kk: int|
                            0 <= kk < r@.len() && r@[kk] == Some(cc)) implies taken_coords@
                        .contains(cc) by {
                        if exists|kk: int| 0 <= kk < r@.len() && #[trigger] r@[kk] == Some(cc) {
                            let kk: int = choose|kk: int|
                                0 <= kk < r@.len() && #[trigger] r@[kk] == Some(cc);
                            assert(kk < r@.len() - 1);
                            assert(r_before[kk] == Some(cc));
                        }
                    }
                }
            },
        }
        proof {
            assert forall|kk: int|
                0 <= kk < r@.len() && !old(taken_coords)@.contains(desired_coord(batch@[kk].1))
                    && (forall|j: int|
                    0 <= j < kk ==> #[trigger] r@[j] != Some(desired_coord(batch@[kk].1)))
                implies #[trigger] r@[kk] == Some(desired_coord(batch@[kk].1)) by {
                if kk < r@.len() - 1 {
                    assert forall|j: int| 0 <= j < kk implies #[trigger] r_before[j] != Some(
                        desired_coord(batch@[kk].1),
                    ) by {
                        assert(r@[j] == r_before[j]);
                    }
                    assert(r_before[kk] == Some(desired_coord(batch@[kk].1)));
                } else {
                    let d = desired_coord(batch@[kk].1);
                    if !taken_before.contains(d) {
                    } else {
                        assert(old(taken_coords)@.contains(d) || exists|j: int|
                            0 <= j < r_before.len() && #[trigger] r_before[j] == Some(d));
                        let j: int = choose|j: int|
                            0 <= j < r_before.len() && #[trigger] r_before[j] == Some(d);
                        assert(r@[j] == Some(d));
                    }
                }
            }
        }
        k = k + 1;
    }
    r
}

/// Recolor token sprites for a turn change: the active creature's
/// tokens take the highlight tint, all others their base color. The
/// result lists the display color for each token, in order.
pub fn on_tracker_event(tokens: &Vec<Token>, event: &TrackerEvent) -> (r: Vec<Color>)
    ensures
        r@.len() == tokens@.len(),
        match *event {
            TrackerEvent::TurnUpdate(c) => forall|i: int|
                0 <= i < tokens@.len() ==> #[trigger] r@[i] == (if c.id@ == tokens@[i].creature_id@ {
                    highlight_of(tokens@[i].color)
                } else {
                    tokens@[i].color
                }),
        },
{
    let mut r: Vec<Color> = Vec::new();
    match event {
        TrackerEvent::TurnUpdate(c) => {
            let mut i: usize = 0;
            while i < tokens.len()
                invariant
                    i <= tokens@.len(),
                    r@.len() == i,
                    forall|j: int|
                        0 <= j < i ==> #[trigger] r@[j] == (if c.id@ == tokens@[j].creature_id@ {
                            highlight_of(tokens@[j].color)
                        } else {
                            tokens@[j].color
                        }),
                decreases tokens@.len() - i,
            {
                if c.id.eq(&tokens[i].creature_id) {
                    r.push(highlight_color(&tokens[i].color));
                } else {
                    r.push(tokens[i].color);
                }
                i = i + 1;
            }
        },
    }
    r
}

} // verus!
