use hexalon::cell::{CellEvent, Color};
use hexalon::draw::{on_draw, set_draw_mode, Draw, DrawMode};
use hexalon::grid::{Grid, Pos};
use hexalon::hex::HexCoord;

fn white() -> Color {
    Color { red: 255, green: 255, blue: 255, alpha: 255 }
}

fn blue() -> Color {
    Color { red: 0, green: 0, blue: 255, alpha: 255 }
}

fn hint_of(c: Color) -> Color {
    Color {
        red: c.red.saturating_sub(51),
        green: c.green.saturating_sub(51),
        blue: c.blue.saturating_sub(51),
        alpha: c.alpha,
    }
}

#[test]
fn press_in_cell_mode_paints_the_cell() {
    let mut grid = Grid::create(10);
    let mut draw = Draw::default();
    on_draw(&mut draw, &mut grid, &CellEvent::Pressed(HexCoord { q: 0, r: 0 }));
    assert_eq!(grid.get_stored_color(&HexCoord { q: 0, r: 0 }), Some(blue()));
    assert_eq!(grid.get_display_color(&HexCoord { q: 0, r: 0 }), Some(blue()));
    assert_eq!(grid.get_stored_color(&HexCoord { q: 1, r: 0 }), Some(white()));
    assert_eq!(draw.start_cell, Some(HexCoord { q: 0, r: 0 }));
}

#[test]
fn freehand_drag_paints_hovered_cells() {
    let mut grid = Grid::create(10);
    let mut draw = Draw::default();
    on_draw(&mut draw, &mut grid, &CellEvent::Pressed(HexCoord { q: 0, r: 0 }));
    on_draw(&mut draw, &mut grid, &CellEvent::Over(HexCoord { q: 1, r: 0 }));
    on_draw(&mut draw, &mut grid, &CellEvent::Over(HexCoord { q: 1, r: 1 }));
    assert_eq!(grid.get_stored_color(&HexCoord { q: 1, r: 0 }), Some(blue()));
    assert_eq!(grid.get_stored_color(&HexCoord { q: 1, r: 1 }), Some(blue()));
    // Without an active gesture a hover paints nothing.
    let mut idle = Draw::default();
    on_draw(&mut idle, &mut grid, &CellEvent::Over(HexCoord { q: 2, r: 0 }));
    assert_eq!(grid.get_stored_color(&HexCoord { q: 2, r: 0 }), Some(white()));
}

#[test]
fn line_gesture_previews_then_commits_four_cells() {
    let mut grid = Grid::create(10);
    let mut draw = Draw::default();
    set_draw_mode(&mut draw, &mut grid, DrawMode::Line);

    on_draw(&mut draw, &mut grid, &CellEvent::Pressed(HexCoord { q: 0, r: 0 }));
    on_draw(&mut draw, &mut grid, &CellEvent::Over(HexCoord { q: 3, r: 0 }));

    assert_eq!(draw.last_hint.len(), 4);
    assert!(draw.last_hint.contains(&HexCoord { q: 0, r: 0 }));
    assert!(draw.last_hint.contains(&HexCoord { q: 3, r: 0 }));
    for q in 0..4 {
        let c = HexCoord { q, r: 0 };
        assert_eq!(grid.get_stored_color(&c), Some(white()));
        assert_eq!(grid.get_display_color(&c), Some(hint_of(white())));
    }

    // Release exactly over (3, 0): the offset is that cell's position.
    let end_pos = grid.hex_coord_to_pos(&HexCoord { q: 3, r: 0 });
    on_draw(&mut draw, &mut grid, &CellEvent::Released(end_pos));

    assert!(draw.last_hint.is_empty());
    assert_eq!(draw.start_cell, None);
    for q in 0..4 {
        let c = HexCoord { q, r: 0 };
        assert_eq!(grid.get_stored_color(&c), Some(blue()));
        assert_eq!(grid.get_display_color(&c), Some(blue()));
    }
    assert_eq!(grid.get_stored_color(&HexCoord { q: 4, r: 0 }), Some(white()));
}

#[test]
fn filled_box_commits_outline_and_interior() {
    let mut grid = Grid::create(10);
    let mut draw = Draw::default();
    set_draw_mode(&mut draw, &mut grid, DrawMode::Box);
    assert!(draw.fill);

    on_draw(&mut draw, &mut grid, &CellEvent::Pressed(HexCoord { q: 0, r: 0 }));
    let end_pos = grid.hex_coord_to_pos(&HexCoord { q: 2, r: 2 });
    on_draw(&mut draw, &mut grid, &CellEvent::Released(end_pos));

    for c in [
        HexCoord { q: 0, r: 0 },
        HexCoord { q: 2, r: 2 },
        HexCoord { q: 0, r: 2 },
        HexCoord { q: 2, r: 0 },
        HexCoord { q: 1, r: 1 },
    ] {
        assert_eq!(grid.get_stored_color(&c), Some(blue()), "{c:?}");
    }
    assert_eq!(grid.get_stored_color(&HexCoord { q: -1, r: 0 }), Some(white()));
    assert!(draw.last_hint.is_empty());
}

#[test]
fn hints_revert_on_release_outside_the_grid() {
    let mut grid = Grid::create(10);
    let mut draw = Draw::default();
    set_draw_mode(&mut draw, &mut grid, DrawMode::Line);

    on_draw(&mut draw, &mut grid, &CellEvent::Pressed(HexCoord { q: 0, r: 0 }));
    on_draw(&mut draw, &mut grid, &CellEvent::Over(HexCoord { q: 2, r: 0 }));
    on_draw(&mut draw, &mut grid, &CellEvent::Over(HexCoord { q: 0, r: 2 }));

    // Resolve far outside the grid: the release is a no-op that still
    // ends the gesture and reverts every hint.
    on_draw(
        &mut draw,
        &mut grid,
        &CellEvent::Released(Pos { x: 90_000_000_000_000, y: 0 }),
    );

    assert!(draw.last_hint.is_empty());
    assert_eq!(draw.start_cell, None);
    for cell in &grid.cells {
        assert_eq!(cell.display, cell.color);
        assert_eq!(cell.color, white());
    }
}

#[test]
fn mode_switch_reverts_pending_hints() {
    let mut grid = Grid::create(10);
    let mut draw = Draw::default();
    set_draw_mode(&mut draw, &mut grid, DrawMode::Box);

    on_draw(&mut draw, &mut grid, &CellEvent::Pressed(HexCoord { q: 0, r: 0 }));
    on_draw(&mut draw, &mut grid, &CellEvent::Over(HexCoord { q: 2, r: 1 }));
    assert!(!draw.last_hint.is_empty());

    set_draw_mode(&mut draw, &mut grid, DrawMode::Cell);

    assert!(draw.last_hint.is_empty());
    for cell in &grid.cells {
        assert_eq!(cell.display, cell.color);
    }
}

#[test]
fn default_session_starts_idle() {
    let draw = Draw::default();
    assert_eq!(draw.draw_mode, DrawMode::Cell);
    assert!(draw.fill);
    assert_eq!(draw.color, blue());
    assert_eq!(draw.start_cell, None);
    assert!(draw.last_hint.is_empty());
}
