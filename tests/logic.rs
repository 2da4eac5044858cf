use blorus::logic::{update_suggestion, Coord, GameState, Player, TileColor};
use blorus::piece::{catalog_shape, flip, occupied, rotate, FlipDir, RotateDir};

fn is_corner(r: usize, c: usize) -> bool {
    (r == 0 || r == 21) && (c == 0 || c == 21)
}

#[test]
fn accept_correct_move() {
    let mut game_state = GameState::new(4);
    // L5 shape, bottom right:
    game_state.select_piece(Some(10));
    assert!(game_state.try_advance_turn(18, 18));

    // Dot piece, bottom left:
    game_state.select_piece(Some(0));
    assert!(game_state.try_advance_turn(19, 0));

    // Notch square, top left:
    game_state.select_piece(Some(14));
    assert!(game_state.try_advance_turn(0, 1));
}

#[test]
fn reject_incorrect_move() {
    // Can't fit
    let mut game_state = GameState::new(4);
    game_state.select_piece(Some(10));
    assert!(!game_state.try_advance_turn(19, 19));

    // Wrong corner
    game_state.select_piece(Some(0));
    assert!(!game_state.try_advance_turn(0, 0));

    // Adjacent, same color
    let mut solo = GameState::new(1);
    solo.select_piece(Some(0));
    assert!(solo.try_advance_turn(19, 19));
    solo.select_piece(Some(1));
    solo.piece_buffer = rotate(solo.piece_buffer, RotateDir::Right);
    assert!(!solo.try_advance_turn(18, 18));

    // Middle of nowhere
    solo.select_piece(Some(0));
    assert!(!solo.try_advance_turn(10, 10));
    assert_eq!(game_state.current_player, 0);
    assert_eq!(game_state.board[20][20], TileColor::Empty);
}

#[test]
fn decide_if_playable() {
    let mut game_state = GameState::new(2);
    // At least the *empty* board should be considered playable.
    assert!(game_state.can_make_move());

    game_state.select_piece(Some(1));
    game_state.try_advance_turn(18, 19);
    // Nowhere near done.
    assert!(game_state.can_make_move());
}

#[test]
fn end_to_end_placements_update_state() {
    let mut g = GameState::new(4);
    g.select_piece(Some(10));
    assert!(g.try_advance_turn(18, 18));
    assert!(!g.players[0].remaining_pieces.contains(10));
    assert_eq!(g.players[0].remaining_pieces.len(), 20);
    assert_eq!(g.current_player, 1);
    assert_eq!(g.selected_piece, None);
    for (r, c) in [(17, 19), (18, 19), (19, 19), (20, 19), (20, 20)] {
        assert_eq!(g.board[r][c], TileColor::Blue);
    }
    assert_eq!(g.board[17][20], TileColor::Empty);

    g.select_piece(Some(0));
    assert!(g.try_advance_turn(19, 0));
    assert_eq!(g.board[20][1], TileColor::Yellow);
    assert!(!g.players[1].remaining_pieces.contains(0));
    assert_eq!(g.current_player, 2);

    g.select_piece(Some(14));
    assert!(g.try_advance_turn(0, 1));
    for (r, c) in [(1, 1), (1, 2), (1, 3), (2, 1), (2, 2)] {
        assert_eq!(g.board[r][c], TileColor::Red);
    }
    assert_eq!(g.current_player, 3);
    assert_eq!(g.pass_counter, 0);
}

#[test]
fn fresh_board_layout() {
    for n in 2..=4 {
        let g = GameState::new(n);
        let seeds: Vec<(usize, usize)> = if n == 2 {
            vec![(21, 21), (0, 0)]
        } else {
            vec![(21, 21), (21, 0), (0, 0), (0, 21)][..n].to_vec()
        };
        for (i, &(r, c)) in seeds.iter().enumerate() {
            assert_eq!(g.board[r][c], g.players[i].color);
        }
        for r in 0..22 {
            for c in 0..22 {
                let border = r == 0 || r == 21 || c == 0 || c == 21;
                if seeds.contains(&(r, c)) {
                    continue;
                }
                if border {
                    assert_eq!(g.board[r][c], TileColor::Wall);
                } else {
                    assert_eq!(g.board[r][c], TileColor::Empty);
                }
            }
        }
        let colored = (0..22)
            .flat_map(|r| (0..22).map(move |c| (r, c)))
            .filter(|&(r, c)| is_corner(r, c) && g.board[r][c] != TileColor::Wall)
            .count();
        assert_eq!(colored, n);
    }
}

#[test]
fn default_seating_and_hands() {
    let g = GameState::new(7);
    assert_eq!(g.players.len(), 4);
    let colors: Vec<TileColor> = g.players.iter().map(|p| p.color).collect();
    assert_eq!(colors, vec![TileColor::Blue, TileColor::Yellow, TileColor::Red, TileColor::Green]);
    for p in &g.players {
        assert_eq!(p.remaining_pieces.len(), 21);
        assert!(p.remaining_pieces.contains(20));
        assert!(!p.remaining_pieces.contains(21));
    }
    assert_eq!(g.current_player().color, TileColor::Blue);
}

#[test]
fn first_move_needs_own_corner() {
    let mut g = GameState::new(4);
    let corners = [(19, 19), (19, 0), (0, 0), (0, 19)];
    for (i, &(r, c)) in corners.iter().enumerate() {
        assert_eq!(g.current_player, i);
        // Not next to the player's own seed.
        let (fr, fc) = corners[(i + 1) % 4];
        g.select_piece(Some(0));
        assert!(!g.try_advance_turn(fr, fc));
        assert!(!g.try_advance_turn(10, 10));
        assert!(g.try_advance_turn(r, c));
    }
    assert_eq!(g.current_player, 0);
}

#[test]
fn edge_contact_rejected_despite_corner_contact() {
    let mut g = GameState::new(1);
    g.select_piece(Some(0));
    assert!(g.try_advance_turn(19, 19));
    // A horizontal domino over (19, 19) and (19, 20): the first cell meets
    // the dot at a corner, the second along an edge.
    g.select_piece(Some(1));
    g.piece_buffer = rotate(g.piece_buffer, RotateDir::Right);
    assert!(!g.valid_move(Coord { row: 17, col: 17 }));
    assert!(!g.try_advance_turn(18, 18));
    // The vertical domino over (18, 19) and (19, 19) only meets it at a corner.
    g.select_piece(Some(1));
    assert!(g.valid_move(Coord { row: 17, col: 17 }));
    assert!(g.try_advance_turn(18, 18));
}

#[test]
fn recentering_bounds() {
    let mut g = GameState::new(2);
    g.select_piece(Some(0));
    assert_eq!(g.check_bounds_and_recenter(Coord { row: 0, col: 0 }), Some(Coord { row: -2, col: -2 }));
    assert_eq!(g.check_bounds_and_recenter(Coord { row: 19, col: 19 }), Some(Coord { row: 17, col: 17 }));
    assert_eq!(g.check_bounds_and_recenter(Coord { row: 20, col: 5 }), None);
    assert_eq!(g.check_bounds_and_recenter(Coord { row: 5, col: -1 }), None);
    g.select_piece(Some(9));
    assert_eq!(g.check_bounds_and_recenter(Coord { row: 1, col: 5 }), None);
    assert_eq!(g.check_bounds_and_recenter(Coord { row: 2, col: 5 }), Some(Coord { row: 0, col: 3 }));
    assert_eq!(g.check_bounds_and_recenter(Coord { row: 17, col: 5 }), Some(Coord { row: 15, col: 3 }));
    assert_eq!(g.check_bounds_and_recenter(Coord { row: 18, col: 5 }), None);
    g.select_piece(Some(16));
    assert_eq!(g.check_bounds_and_recenter(Coord { row: 5, col: 17 }), Some(Coord { row: 3, col: 15 }));
    assert_eq!(g.check_bounds_and_recenter(Coord { row: 5, col: 18 }), None);
    assert_eq!(g.check_bounds_and_recenter(Coord { row: i32::MAX, col: 5 }), None);
}

#[test]
fn valid_move_outside_board_is_rejected() {
    let mut g = GameState::new(4);
    g.select_piece(Some(9));
    assert!(!g.valid_move(Coord { row: 19, col: 19 }));
    assert!(!g.valid_move(Coord { row: -5, col: 3 }));
    assert!(!g.valid_move(Coord { row: i32::MIN, col: i32::MAX }));
    g.select_piece(None);
    assert!(!g.valid_move(Coord { row: 17, col: 17 }));
}

#[test]
fn select_piece_resets_buffer() {
    let mut g = GameState::new(2);
    g.select_piece(Some(19));
    g.piece_buffer = rotate(g.piece_buffer, RotateDir::Left);
    g.select_piece(Some(19));
    assert_eq!(g.piece_buffer, catalog_shape(19));
    g.select_piece(None);
    assert_eq!(g.selected_piece, None);
    assert_eq!(g.piece_buffer, blorus::piece::empty_shape());
}

#[test]
fn every_player_can_move_on_fresh_board() {
    for n in 1..=4 {
        let mut g = GameState::new(n);
        for _ in 0..n {
            assert!(g.can_make_move());
            assert!(!g.pass_if_stuck());
            g.end_turn();
        }
        assert_eq!(g.current_player, 0);
        assert_eq!(g.pass_counter, 0);
    }
}

#[test]
fn game_over_after_everyone_passes() {
    let mut g = GameState::new(3);
    for r in 1..21 {
        for c in 1..21 {
            g.board[r][c] = TileColor::Wall;
        }
    }
    for i in 0..3 {
        assert!(!g.is_game_over());
        assert!(!g.can_make_move());
        assert!(g.pass_if_stuck());
        assert_eq!(g.pass_counter, i + 1);
    }
    assert!(g.is_game_over());
    assert_eq!(g.players[0].remaining_pieces.len(), 21);
}

#[test]
fn game_over_when_hand_is_empty() {
    let mut g = GameState::new(2);
    assert!(!g.is_game_over());
    for id in 0..21 {
        g.players[0].remaining_pieces.remove(id);
    }
    assert!(g.is_game_over());
    assert!(!g.can_make_move());
    g.end_turn();
    assert!(!g.is_game_over());
}

#[test]
fn placement_resets_pass_counter() {
    let mut g = GameState::new(2);
    g.pass_counter = 1;
    g.select_piece(Some(0));
    assert!(g.try_advance_turn(19, 19));
    assert_eq!(g.pass_counter, 0);
}

#[test]
fn placed_cells_keep_their_color() {
    let mut g = GameState::new(2);
    g.select_piece(Some(0));
    assert!(g.try_advance_turn(19, 19));
    g.select_piece(Some(0));
    assert!(g.try_advance_turn(0, 0));
    // Blue again: the dot over its own cell is refused and changes nothing.
    g.select_piece(Some(0));
    assert!(!g.try_advance_turn(19, 19));
    assert_eq!(g.board[20][20], TileColor::Blue);
    assert_eq!(g.board[1][1], TileColor::Yellow);
}

#[test]
fn player_new_has_full_hand() {
    let p = Player::new(TileColor::Green);
    assert_eq!(p.color, TileColor::Green);
    assert_eq!(p.remaining_pieces.len(), 21);
    assert!((0..21).all(|i| p.remaining_pieces.contains(i)));
}

#[test]
fn tile_symbols() {
    let symbols: String = [
        TileColor::Empty,
        TileColor::Red,
        TileColor::Yellow,
        TileColor::Green,
        TileColor::Blue,
        TileColor::Wall,
    ]
    .iter()
    .map(|t| t.symbol())
    .collect();
    assert_eq!(symbols, ".RYGB#");
}

#[test]
fn end_turn_cycles() {
    let mut g = GameState::new(3);
    g.end_turn();
    assert_eq!(g.current_player, 1);
    g.end_turn();
    g.end_turn();
    assert_eq!(g.current_player, 0);
}

#[test]
fn with_players_keeps_order() {
    let players = vec![Player::new(TileColor::Red), Player::new(TileColor::Green), Player::new(TileColor::Blue)];
    let g = GameState::with_players(players);
    assert_eq!(g.board[21][21], TileColor::Red);
    assert_eq!(g.board[21][0], TileColor::Green);
    assert_eq!(g.board[0][0], TileColor::Blue);
    assert_eq!(g.board[0][21], TileColor::Wall);
    assert_eq!(g.current_player, 0);
}

#[test]
fn buffer_transforms_keep_selection() {
    let mut g = GameState::new(2);
    g.select_piece(Some(19));
    g.rotate_piece(RotateDir::Right);
    assert_eq!(g.piece_buffer, rotate(catalog_shape(19), RotateDir::Right));
    assert_eq!(g.selected_piece, Some(19));
    g.flip_piece(FlipDir::Horizontal);
    assert_eq!(
        g.piece_buffer,
        flip(rotate(catalog_shape(19), RotateDir::Right), FlipDir::Horizontal)
    );
    g.rotate_piece(RotateDir::Left);
    g.flip_piece(FlipDir::Vertical);
    assert_eq!(g.selected_piece, Some(19));
    g.select_piece(None);
    g.rotate_piece(RotateDir::Right);
    assert_eq!(g.piece_buffer, blorus::piece::empty_shape());
}

#[test]
fn suggestion_matches_recentering_and_legality() {
    let mut g = GameState::new(4);
    g.select_piece(Some(10));
    assert_eq!(update_suggestion(&g, Coord { row: 18, col: 18 }), Some(Coord { row: 16, col: 16 }));
    assert_eq!(update_suggestion(&g, Coord { row: 19, col: 19 }), None);
    assert_eq!(update_suggestion(&g, Coord { row: 10, col: 10 }), None);
    g.select_piece(Some(0));
    assert_eq!(update_suggestion(&g, Coord { row: 19, col: 19 }), Some(Coord { row: 17, col: 17 }));
    assert_eq!(update_suggestion(&g, Coord { row: 0, col: 0 }), None);
}

#[test]
fn default_order_seating() {
    let players = Player::default_order(3);
    let colors: Vec<TileColor> = players.iter().map(|p| p.color).collect();
    assert_eq!(colors, vec![TileColor::Blue, TileColor::Yellow, TileColor::Red]);
    assert_eq!(Player::default_order(0).len(), 0);
    assert_eq!(Player::default_order(9).len(), 4);
}

#[test]
fn occupied_reads_cells() {
    let l5 = catalog_shape(10);
    let cells: Vec<(usize, usize)> = (0..5)
        .flat_map(|r| (0..5).map(move |c| (r, c)))
        .filter(|&(r, c)| occupied(&l5, r, c))
        .collect();
    assert_eq!(cells, vec![(0, 2), (1, 2), (2, 2), (3, 2), (3, 3)]);
}

#[test]
fn dot_next_to_seed_found_by_search() {
    let mut g = GameState::new(2);
    g.end_turn();
    for id in 1..21 {
        g.players[1].remaining_pieces.remove(id);
    }
    // Yellow's only move is the dot on the play-area corner by its seed.
    assert!(g.can_make_move());
    assert!(!g.pass_if_stuck());
    g.select_piece(Some(0));
    assert!(g.try_advance_turn(0, 0));
}

#[test]
fn piece_no_longer_in_hand_is_refused() {
    let mut g = GameState::new(1);
    g.select_piece(Some(0));
    assert!(g.try_advance_turn(19, 19));
    // The dot has been played; choosing it again places nothing.
    g.select_piece(Some(0));
    assert!(!g.try_advance_turn(18, 18));
    assert_eq!(g.board[19][19], TileColor::Empty);
    assert_eq!(g.selected_piece, Some(0));
}
