use hexalon::cell::Color;
use hexalon::grid::{Grid, Pos};
use hexalon::hex::HexCoord;

#[test]
fn hex_to_pos() {
    let grid = Grid::create(250);

    let test_coord = HexCoord { q: 10, r: 10 };

    let pos = grid.hex_coord_to_pos(&test_coord);
    let coord = grid.pos_to_hex_coord(&pos);

    assert_eq!(test_coord, coord);
}

#[test]
fn round_trip_holds_for_every_cell() {
    let grid = Grid::create(10);
    for cell in &grid.cells {
        let pos = grid.hex_coord_to_pos(&cell.pos);
        assert_eq!(grid.pos_to_hex_coord(&pos), cell.pos);
    }
}

#[test]
fn create_populates_the_hexagonal_footprint() {
    let grid = Grid::create(10);
    assert!(grid.get_cell(&HexCoord { q: 0, r: 0 }).is_some());
    assert!(grid.get_cell(&HexCoord { q: 5, r: 0 }).is_some());
    assert!(grid.get_cell(&HexCoord { q: -5, r: 5 }).is_some());
    assert!(grid.get_cell(&HexCoord { q: 6, r: 0 }).is_none());
    assert!(grid.get_cell(&HexCoord { q: 3, r: 3 }).is_none());
    // 1 + 3r(r+1) cells for a hexagon of radius r = 5.
    assert_eq!(grid.cells.len(), 91);
}

#[test]
fn neighbours_come_in_fixed_order_and_skip_missing_cells() {
    let grid = Grid::create(10);
    let center = grid.get_neighbours(&HexCoord { q: 0, r: 0 });
    assert_eq!(
        center,
        vec![
            HexCoord { q: 1, r: 0 },
            HexCoord { q: 1, r: -1 },
            HexCoord { q: 0, r: -1 },
            HexCoord { q: -1, r: 0 },
            HexCoord { q: -1, r: 1 },
            HexCoord { q: 0, r: 1 },
        ]
    );
    let edge = grid.get_neighbours(&HexCoord { q: 5, r: 0 });
    assert_eq!(
        edge,
        vec![HexCoord { q: 5, r: -1 }, HexCoord { q: 4, r: 0 }, HexCoord { q: 4, r: 1 }]
    );
}

#[test]
fn line_covers_every_step_and_both_ends() {
    let grid = Grid::create(10);
    let start = HexCoord { q: 0, r: 0 };
    let end = HexCoord { q: 3, r: 0 };
    let line = grid.get_cells_in_line(&start, &end);
    assert_eq!(
        line,
        vec![
            HexCoord { q: 0, r: 0 },
            HexCoord { q: 1, r: 0 },
            HexCoord { q: 2, r: 0 },
            HexCoord { q: 3, r: 0 },
        ]
    );
    let diagonal = grid.get_cells_in_line(&start, &HexCoord { q: 2, r: -4 });
    assert_eq!(diagonal.len() as i32, start.distance(&HexCoord { q: 2, r: -4 }) + 1);
    assert_eq!(diagonal[0], start);
    assert_eq!(*diagonal.last().unwrap(), HexCoord { q: 2, r: -4 });
}

#[test]
fn line_skips_cells_outside_the_grid() {
    // Radius-2 grid: the line runs off the board and the missing cells
    // are skipped without aborting the rest of the query.
    let grid = Grid::create(4);
    let line = grid.get_cells_in_line(&HexCoord { q: 0, r: 0 }, &HexCoord { q: 4, r: 0 });
    assert_eq!(
        line,
        vec![HexCoord { q: 0, r: 0 }, HexCoord { q: 1, r: 0 }, HexCoord { q: 2, r: 0 }]
    );
}

#[test]
fn box_outline_holds_corners() {
    let grid = Grid::create(10);
    let start = HexCoord { q: 0, r: 0 };
    let end = HexCoord { q: 2, r: 2 };
    let outline = grid.get_cells_in_box(&start, &end);
    assert!(outline.contains(&start));
    assert!(outline.contains(&end));
    assert!(outline.contains(&HexCoord { q: 0, r: 2 }));
    assert!(outline.contains(&HexCoord { q: 2, r: 0 }));
}

#[test]
fn nearby_positions_round_to_the_same_cell() {
    let grid = Grid::create(10);
    let c = HexCoord { q: 2, r: -1 };
    let pos = grid.hex_coord_to_pos(&c);
    // A millionth of a pixel is far below half a cell.
    let nudged = Pos { x: pos.x + 1_000, y: pos.y - 1_000 };
    assert_eq!(grid.pos_to_hex_coord(&nudged), c);
}

#[test]
fn resize_drops_out_of_range_cells_and_keeps_colors() {
    let mut grid = Grid::create(10);
    let red = Color { red: 200, green: 10, blue: 10, alpha: 255 };
    grid.paint_committed(&HexCoord { q: 1, r: 1 }, &red);
    grid.recreate(6);

    assert_eq!(grid.size, 6);
    assert!(grid.get_cell(&HexCoord { q: 4, r: 0 }).is_none());
    assert!(grid.get_cell(&HexCoord { q: 0, r: -4 }).is_none());
    assert!(grid.get_cell(&HexCoord { q: 2, r: 2 }).is_none());
    assert!(grid.get_cell(&HexCoord { q: 3, r: 0 }).is_some());

    assert_eq!(grid.get_stored_color(&HexCoord { q: 1, r: 1 }), Some(red));
    let white = Color { red: 255, green: 255, blue: 255, alpha: 255 };
    assert_eq!(grid.get_stored_color(&HexCoord { q: 0, r: 0 }), Some(white));

    // Growing back re-creates the removed cells fresh and keeps the rest.
    grid.recreate(10);
    assert!(grid.get_cell(&HexCoord { q: 4, r: 0 }).is_some());
    assert_eq!(grid.get_stored_color(&HexCoord { q: 4, r: 0 }), Some(white));
    assert_eq!(grid.get_stored_color(&HexCoord { q: 1, r: 1 }), Some(red));
}

#[test]
fn get_edges_are_symmetric() {
    assert_eq!(Grid::get_edges(10), (-5, 5, -5, 5));
    assert_eq!(Grid::get_edges(0), (0, 0, 0, 0));
    assert_eq!(Grid::get_edges(7), (-3, 3, -3, 3));
}
