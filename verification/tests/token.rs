use hexalon::cell::Color;
use hexalon::grid::Grid;
use hexalon::hex::HexCoord;
use hexalon::initiative_tracker::{Creature, TrackerEvent};
use hexalon::token::{find_empty_cells, on_token_event, on_tracker_event, Token, TokenEvent, TokenType};

fn red() -> Color {
    Color { red: 200, green: 20, blue: 20, alpha: 255 }
}

fn creature(id: &str, active: bool) -> Creature {
    Creature {
        id: id.to_string(),
        name: id.to_string(),
        initiative: 10,
        player: None,
        active,
        number: 0,
        cr: None,
        current_ac: 15,
    }
}

#[test]
fn free_start_is_taken_directly() {
    let grid = Grid::create(10);
    let taken: Vec<HexCoord> = Vec::new();
    let c = find_empty_cells(&taken, &grid, HexCoord { q: 2, r: -1 });
    assert_eq!(c, Some(HexCoord { q: 2, r: -1 }));
}

#[test]
fn occupied_start_yields_a_neighbour() {
    let grid = Grid::create(10);
    let origin = HexCoord { q: 0, r: 0 };
    let taken = vec![origin];
    let c = find_empty_cells(&taken, &grid, origin).expect("a free neighbour exists");
    assert_ne!(c, origin);
    let neighbours = grid.get_neighbours(&origin);
    assert!(neighbours.contains(&c));
}

#[test]
fn exhausted_grid_reports_no_placement() {
    // A size-0 grid holds only the origin.
    let grid = Grid::create(0);
    assert_eq!(grid.cells.len(), 1);
    let taken = vec![HexCoord { q: 0, r: 0 }];
    assert_eq!(find_empty_cells(&taken, &grid, HexCoord { q: 0, r: 0 }), None);
}

#[test]
fn batch_spawns_never_collide() {
    let grid = Grid::create(10);
    let mut taken: Vec<HexCoord> = Vec::new();
    let origin = HexCoord { q: 0, r: 0 };
    let origin_pos = grid.hex_coord_to_pos(&origin);
    let tok = || Token::new("x", "x", TokenType::Party, &origin, &red());
    let event = TokenEvent::BatchSpawn(vec![
        (tok(), origin_pos),
        (tok(), origin_pos),
        (tok(), origin_pos),
        (tok(), origin_pos),
    ]);

    let placed = on_token_event(&grid, &mut taken, &event);

    assert_eq!(placed.len(), 4);
    let coords: Vec<HexCoord> = placed.iter().map(|p| p.expect("grid has room")).collect();
    for i in 0..coords.len() {
        for j in 0..i {
            assert_ne!(coords[i], coords[j]);
        }
    }
    assert_eq!(coords[0], HexCoord { q: 0, r: 0 });
    assert_eq!(taken.len(), 4);
}

#[test]
fn turn_update_highlights_matching_tokens() {
    let a = Token::new("a", "Alice", TokenType::Party, &HexCoord { q: 0, r: 0 }, &red());
    let b = Token::new("b", "Boris", TokenType::Enemy, &HexCoord { q: 1, r: 0 }, &red());
    let tokens = vec![a, b];

    let event = TrackerEvent::TurnUpdate(creature("a", true));
    let colors = on_tracker_event(&tokens, &event);

    assert_eq!(colors.len(), 2);
    assert_eq!(colors[0], Color { red: 255, green: 255, blue: 255, alpha: 255 });
    assert_eq!(colors[1], red());
}

#[test]
fn token_new_copies_its_parts() {
    let t = Token::new("id-1", "Goblin 2", TokenType::Enemy, &HexCoord { q: -2, r: 3 }, &red());
    assert_eq!(t.creature_id, "id-1");
    assert_eq!(t.name, "Goblin 2");
    assert_eq!(t.token_type, TokenType::Enemy);
    assert_eq!(t.coords, HexCoord { q: -2, r: 3 });
    assert_eq!(t.color, red());
}
