use tetris::board::{Board, CellCmd, BOARD_HEIGHT, BOARD_WIDTH};
use tetris::game::{Game, GameUpdate, Key};
use tetris::input::{decode_escape, decode_single, Decoded};
use tetris::piece::{Piece, PieceBag};
use tetris::util::{Color, Direction, Point};

fn fill_row_except(board: &mut Board, y: usize, skip: &[usize], color: Color) {
    for x in 0..BOARD_WIDTH {
        if !skip.contains(&x) {
            board.set_cell(y, x, Some(color));
        }
    }
}

fn board_is_empty(board: &Board) -> bool {
    for y in 0..BOARD_HEIGHT {
        for x in 0..BOARD_WIDTH {
            if board.get_cell(y, x).is_some() {
                return false;
            }
        }
    }
    true
}

#[test]
fn collision_free_placements_are_reported_free() {
    let board = Board::new();
    let o = Piece::new_o();
    assert!(!board.collision_test(&o, Point { x: 4, y: 0 }));
    assert!(!board.collision_test(&o, Point { x: 0, y: 0 }));
    assert!(!board.collision_test(&o, Point { x: 8, y: 18 }));
    let i = Piece::new_i();
    // The I piece's occupied row is row 1 of its 4x4 matrix.
    assert!(!board.collision_test(&i, Point { x: 0, y: -1 }));
    assert!(!board.collision_test(&i, Point { x: 6, y: 18 }));
}

#[test]
fn collision_out_of_bounds_is_reported() {
    let board = Board::new();
    let o = Piece::new_o();
    assert!(board.collision_test(&o, Point { x: -1, y: 0 }));
    assert!(board.collision_test(&o, Point { x: 9, y: 0 }));
    assert!(board.collision_test(&o, Point { x: 4, y: 19 }));
    assert!(board.collision_test(&o, Point { x: 4, y: -1 }));
}

#[test]
fn collision_with_occupied_cell_is_reported() {
    let mut board = Board::new();
    board.set_cell(10, 5, Some(Color::Red));
    let o = Piece::new_o();
    assert!(board.collision_test(&o, Point { x: 4, y: 9 }));
    assert!(board.collision_test(&o, Point { x: 5, y: 9 }));
    assert!(!board.collision_test(&o, Point { x: 3, y: 9 }));
    assert!(!board.collision_test(&o, Point { x: 4, y: 7 }));
}

#[test]
fn rotate_left_four_times_restores_shape() {
    for piece in [
        Piece::new_o(),
        Piece::new_l(),
        Piece::new_j(),
        Piece::new_t(),
        Piece::new_s(),
        Piece::new_z(),
        Piece::new_i(),
    ] {
        let mut p = piece.clone();
        for _ in 0..4 {
            p.rotate(Direction::Left);
        }
        assert_eq!(p.shape, piece.shape);
    }
}

#[test]
fn rotate_right_four_times_restores_shape() {
    for piece in [
        Piece::new_o(),
        Piece::new_l(),
        Piece::new_j(),
        Piece::new_t(),
        Piece::new_s(),
        Piece::new_z(),
        Piece::new_i(),
    ] {
        let mut p = piece.clone();
        for _ in 0..4 {
            p.rotate(Direction::Right);
        }
        assert_eq!(p.shape, piece.shape);
    }
}

#[test]
fn rotate_left_once_matches_expected_matrix() {
    let mut t = Piece::new_t();
    t.rotate(Direction::Left);
    assert_eq!(t.shape, vec![vec![0, 1, 0], vec![1, 1, 0], vec![0, 1, 0]]);
    let mut i = Piece::new_i();
    i.rotate(Direction::Left);
    assert_eq!(
        i.shape,
        vec![
            vec![0, 1, 0, 0],
            vec![0, 1, 0, 0],
            vec![0, 1, 0, 0],
            vec![0, 1, 0, 0],
        ]
    );
}

#[test]
fn rotate_right_then_left_restores_shape() {
    let mut p = Piece::new_s();
    p.rotate(Direction::Right);
    p.rotate(Direction::Left);
    assert_eq!(p.shape, Piece::new_s().shape);
}

#[test]
fn each_point_lists_occupied_cells_row_major() {
    let o = Piece::new_o();
    assert_eq!(o.each_point(), vec![(0, 0), (0, 1), (1, 0), (1, 1)]);
    let t = Piece::new_t();
    assert_eq!(t.each_point(), vec![(0, 1), (1, 0), (1, 1), (1, 2)]);
    let i = Piece::new_i();
    assert_eq!(i.each_point(), vec![(1, 0), (1, 1), (1, 2), (1, 3)]);
}

#[test]
fn shadow_colors_map_to_dim_counterparts() {
    assert_eq!(Piece::new_o().get_shadow_color(), Color::DarkYellow);
    assert_eq!(Piece::new_i().get_shadow_color(), Color::DarkCyan);
    assert_eq!(Piece::new_z().get_shadow_color(), Color::DarkRed);
    let mut p = Piece::new_o();
    p.color = Color::DarkYellow;
    assert_eq!(p.get_shadow_color(), Color::Black);
    p.color = Color::Black;
    assert_eq!(p.get_shadow_color(), Color::Black);
}

#[test]
fn clear_one_full_row_empties_board() {
    let mut board = Board::new();
    fill_row_except(&mut board, 19, &[], Color::Blue);
    let cleared = board.clear_lines();
    assert_eq!(cleared, 1);
    assert!(board_is_empty(&board));
}

#[test]
fn clear_bottom_two_rows_empties_board() {
    let mut board = Board::new();
    fill_row_except(&mut board, 18, &[], Color::Green);
    fill_row_except(&mut board, 19, &[], Color::Blue);
    let cleared = board.clear_lines();
    assert_eq!(cleared, 2);
    assert!(board_is_empty(&board));
}

#[test]
fn clear_shifts_surviving_rows_down_and_compounds() {
    let mut board = Board::new();
    // Full rows 17 and 19 around a surviving row 18 with one cell.
    fill_row_except(&mut board, 17, &[], Color::Red);
    board.set_cell(18, 3, Some(Color::Cyan));
    fill_row_except(&mut board, 19, &[], Color::Red);
    let cleared = board.clear_lines();
    assert_eq!(cleared, 2);
    // The surviving row ends at the bottom, its content intact.
    assert_eq!(board.get_cell(19, 3), Some(Color::Cyan));
    for x in 0..BOARD_WIDTH {
        if x != 3 {
            assert_eq!(board.get_cell(19, x), None);
        }
        assert_eq!(board.get_cell(18, x), None);
        assert_eq!(board.get_cell(17, x), None);
    }
}

#[test]
fn clear_four_rows_at_once() {
    let mut board = Board::new();
    for y in 16..20 {
        fill_row_except(&mut board, y, &[], Color::Purple);
    }
    assert_eq!(board.clear_lines(), 4);
    assert!(board_is_empty(&board));
}

#[test]
fn clear_on_untouched_board_reports_zero() {
    let mut board = Board::new();
    board.set_cell(19, 0, Some(Color::Red));
    assert_eq!(board.clear_lines(), 0);
    assert_eq!(board.get_cell(19, 0), Some(Color::Red));
}

#[test]
fn lock_piece_writes_its_cells() {
    let mut board = Board::new();
    let o = Piece::new_o();
    board.lock_piece(&o, Point { x: 4, y: 18 });
    assert_eq!(board.get_cell(18, 4), Some(Color::Yellow));
    assert_eq!(board.get_cell(18, 5), Some(Color::Yellow));
    assert_eq!(board.get_cell(19, 4), Some(Color::Yellow));
    assert_eq!(board.get_cell(19, 5), Some(Color::Yellow));
    assert_eq!(board.get_cell(17, 4), None);
    assert_eq!(board.get_cell(19, 3), None);
}

fn canonical_colors() -> Vec<Color> {
    vec![
        Color::Yellow,
        Color::Orange,
        Color::Blue,
        Color::Purple,
        Color::Green,
        Color::Red,
        Color::Cyan,
    ]
}

#[test]
fn fresh_bag_yields_each_kind_once_then_refills() {
    let mut bag = PieceBag::new();
    let mut seen: Vec<Color> = Vec::new();
    for _ in 0..7 {
        let p = bag.pop();
        assert!(!seen.contains(&p.color), "a kind was dealt twice in one bag");
        seen.push(p.color);
    }
    for c in canonical_colors() {
        assert!(seen.contains(&c), "a kind was missing from the bag");
    }
    // The eighth pop succeeds: the bag refilled itself.
    let eighth = bag.pop();
    assert!(canonical_colors().contains(&eighth.color));
}

#[test]
fn bag_peek_matches_next_pop() {
    let mut bag = PieceBag::new();
    for _ in 0..20 {
        let peeked = bag.peek();
        let popped = bag.pop();
        assert_eq!(peeked.color, popped.color);
        assert_eq!(peeked.shape, popped.shape);
    }
}

#[test]
fn switch_hold_twice_is_refused_and_changes_nothing() {
    let mut game = Game::new();
    let first = game.switch_hold();
    assert!(first);
    let piece_after_first = game.piece.clone();
    let hold_after_first = game.hold.as_ref().unwrap().clone();
    let pos_after_first = game.piece_position;
    let second = game.switch_hold();
    assert!(!second);
    assert_eq!(game.piece.color, piece_after_first.color);
    assert_eq!(game.piece.shape, piece_after_first.shape);
    let held = game.hold.as_ref().unwrap();
    assert_eq!(held.color, hold_after_first.color);
    assert_eq!(held.shape, hold_after_first.shape);
    assert_eq!(game.piece_position, pos_after_first);
    assert!(game.switched);
}

#[test]
fn switch_hold_banks_active_and_activates_next() {
    let mut game = Game::new();
    let active = game.piece.clone();
    let next = game.piece_bag.peek();
    assert!(game.switch_hold());
    assert_eq!(game.hold.as_ref().unwrap().color, active.color);
    assert_eq!(game.piece.color, next.color);
    assert_eq!(game.piece_position.y, 0);
}

#[test]
fn scoring_four_rows_at_level_one_awards_800() {
    let mut game = Game::new();
    for y in 16..20 {
        fill_row_except(&mut game.board, y, &[], Color::Purple);
    }
    game.piece = Piece::new_o();
    game.piece_position = Point { x: 4, y: 14 };
    let before = game.score;
    assert!(game.advance_game());
    assert_eq!(game.score, before + 800);
    assert_eq!(game.level, 1);
    assert_eq!(game.to_clear, 6);
}

#[test]
fn scoring_one_row_at_level_three_awards_300() {
    let mut game = Game::new();
    game.level = 3;
    game.to_clear = 30;
    fill_row_except(&mut game.board, 19, &[], Color::Green);
    game.piece = Piece::new_o();
    game.piece_position = Point { x: 4, y: 17 };
    let before = game.score;
    assert!(game.advance_game());
    assert_eq!(game.score, before + 300);
    assert_eq!(game.level, 3);
    assert_eq!(game.to_clear, 29);
}

#[test]
fn scoring_two_and_three_rows_follow_the_table() {
    let mut game = Game::new();
    fill_row_except(&mut game.board, 18, &[], Color::Red);
    fill_row_except(&mut game.board, 19, &[], Color::Red);
    game.piece = Piece::new_o();
    game.piece_position = Point { x: 4, y: 16 };
    assert!(game.advance_game());
    assert_eq!(game.score, 300);

    let mut game = Game::new();
    for y in 17..20 {
        fill_row_except(&mut game.board, y, &[], Color::Red);
    }
    game.piece = Piece::new_o();
    game.piece_position = Point { x: 4, y: 15 };
    assert!(game.advance_game());
    assert_eq!(game.score, 500);
}

#[test]
fn lock_then_clear_reports_single_line_and_level_scaled_score() {
    // End to end: row 19 full except the two cells an O piece will fill.
    let mut game = Game::new();
    fill_row_except(&mut game.board, 19, &[4, 5], Color::Blue);
    game.piece = Piece::new_o();
    game.piece_position = Point { x: 4, y: 18 };
    let level = game.level;
    assert_eq!(level, 1);
    assert!(game.advance_game());
    assert_eq!(game.score, 100 * level);
    // The cleared row is gone; the O piece's top half slid down to row 19.
    assert_eq!(game.board.get_cell(19, 4), Some(Color::Yellow));
    assert_eq!(game.board.get_cell(19, 5), Some(Color::Yellow));
    for x in 0..BOARD_WIDTH {
        if x != 4 && x != 5 {
            assert_eq!(game.board.get_cell(19, x), None);
        }
        assert_eq!(game.board.get_cell(18, x), None);
    }
    assert_eq!(game.to_clear, 9);
    assert!(!game.switched);
}

#[test]
fn level_up_resets_quota_and_speeds_up() {
    let mut game = Game::new();
    game.to_clear = 1;
    fill_row_except(&mut game.board, 19, &[], Color::Green);
    game.piece = Piece::new_o();
    game.piece_position = Point { x: 4, y: 17 };
    assert!(game.advance_game());
    assert_eq!(game.level, 2);
    assert_eq!(game.to_clear, 20);
    assert_eq!(game.speed, 460);
}

#[test]
fn speed_clamps_at_20_for_high_levels() {
    let mut game = Game::new();
    game.level = 24;
    game.to_clear = 1;
    fill_row_except(&mut game.board, 19, &[], Color::Green);
    game.piece = Piece::new_o();
    game.piece_position = Point { x: 4, y: 17 };
    assert!(game.advance_game());
    assert_eq!(game.level, 25);
    assert_eq!(game.speed, 20);
}

#[test]
fn advance_moves_piece_down_while_falling() {
    let mut game = Game::new();
    let y0 = game.piece_position.y;
    assert!(game.advance_game());
    assert_eq!(game.piece_position.y, y0 + 1);
    assert_eq!(game.score, 0);
}

#[test]
fn move_piece_commits_only_without_collision() {
    let mut game = Game::new();
    game.piece = Piece::new_o();
    game.piece_position = Point { x: 0, y: 0 };
    assert!(!game.move_piece(-1, 0));
    assert_eq!(game.piece_position, Point { x: 0, y: 0 });
    assert!(game.move_piece(1, 0));
    assert_eq!(game.piece_position, Point { x: 1, y: 0 });
    assert!(game.move_piece(0, 1));
    assert_eq!(game.piece_position, Point { x: 1, y: 1 });
}

#[test]
fn rotate_piece_is_refused_when_it_would_collide() {
    let mut game = Game::new();
    game.piece = Piece::new_i();
    // Vertical I against the left wall; the horizontal orientation would
    // stick out of the field.
    game.piece.rotate(Direction::Left);
    game.piece_position = Point { x: -1, y: 5 };
    let shape_before = game.piece.shape.clone();
    assert!(!game.rotate_piece(Direction::Left));
    assert_eq!(game.piece.shape, shape_before);
    // In open space the same rotation succeeds.
    game.piece_position = Point { x: 3, y: 5 };
    assert!(game.rotate_piece(Direction::Left));
}

#[test]
fn find_dropped_position_probes_to_floor() {
    let mut game = Game::new();
    game.piece = Piece::new_o();
    game.piece_position = Point { x: 4, y: 0 };
    let p = game.find_dropped_position();
    assert_eq!(p, Point { x: 4, y: 18 });
    // A stack below stops it earlier.
    game.board.set_cell(10, 4, Some(Color::Red));
    let p = game.find_dropped_position();
    assert_eq!(p, Point { x: 4, y: 8 });
}

#[test]
fn drop_piece_locks_at_landing_position() {
    let mut game = Game::new();
    game.piece = Piece::new_o();
    game.piece_position = Point { x: 0, y: 0 };
    assert!(game.drop_piece());
    assert_eq!(game.board.get_cell(18, 0), Some(Color::Yellow));
    assert_eq!(game.board.get_cell(19, 0), Some(Color::Yellow));
    assert_eq!(game.board.get_cell(18, 1), Some(Color::Yellow));
    assert_eq!(game.board.get_cell(19, 1), Some(Color::Yellow));
    assert_eq!(game.score, 0);
}

#[test]
fn pause_flips_flag_and_blocks_other_keys() {
    let mut game = Game::new();
    assert!(!game.paused);
    game.keypress(Key::Pause);
    assert!(game.paused);
    let pos = game.piece_position;
    game.keypress(Key::Left);
    game.keypress(Key::Down);
    game.keypress(Key::Space);
    assert_eq!(game.piece_position, pos);
    game.keypress(Key::Pause);
    assert!(!game.paused);
}

#[test]
fn keypress_dispatches_movement() {
    let mut game = Game::new();
    game.piece = Piece::new_o();
    game.piece_position = Point { x: 4, y: 0 };
    game.keypress(Key::Left);
    assert_eq!(game.piece_position.x, 3);
    game.keypress(Key::Right);
    assert_eq!(game.piece_position.x, 4);
    game.keypress(Key::Down);
    assert_eq!(game.piece_position.y, 1);
}

#[test]
fn handle_event_quits_on_quit_keys_and_ticks_advance() {
    let mut game = Game::new();
    let y0 = game.piece_position.y;
    assert!(game.handle_event(GameUpdate::Tick));
    assert_eq!(game.piece_position.y, y0 + 1);
    assert!(!game.handle_event(GameUpdate::KeyPress(Key::Char('z'))));
    assert!(!game.handle_event(GameUpdate::KeyPress(Key::CtrlC)));
    assert!(game.handle_event(GameUpdate::KeyPress(Key::Right)));
}

#[test]
fn game_over_when_spawn_is_blocked() {
    let mut game = Game::new();
    // Block the spawn area without completing any row, so nothing clears.
    for y in 0..4 {
        for x in 3..7 {
            game.board.set_cell(y, x, Some(Color::Red));
        }
    }
    game.piece = Piece::new_o();
    game.piece_position = Point { x: 0, y: 18 };
    // The piece cannot fall (it locks), and the next piece cannot spawn.
    assert!(!game.advance_game());
}

#[test]
fn new_game_starts_clean() {
    let game = Game::new();
    assert!(board_is_empty(&game.board));
    assert_eq!(game.score, 0);
    assert_eq!(game.level, 1);
    assert_eq!(game.speed, 500);
    assert_eq!(game.to_clear, 10);
    assert!(!game.switched);
    assert!(!game.paused);
    assert!(game.hold.is_none());
    assert_eq!(game.piece_position.y, 0);
    assert!(canonical_colors().contains(&game.piece.color));
}

#[test]
fn spawn_position_is_horizontally_centered() {
    let mut game = Game::new();
    game.piece = Piece::new_o();
    assert!(game.place_new_piece());
    assert_eq!(game.piece_position, Point { x: 4, y: 0 });
    game.piece = Piece::new_t();
    assert!(game.place_new_piece());
    assert_eq!(game.piece_position, Point { x: 3, y: 0 });
    game.piece = Piece::new_i();
    assert!(game.place_new_piece());
    assert_eq!(game.piece_position, Point { x: 3, y: 0 });
}

#[test]
fn decode_single_maps_the_key_table() {
    assert_eq!(decode_single(b'w'), Decoded::Done(Key::Up));
    assert_eq!(decode_single(b'a'), Decoded::Done(Key::Left));
    assert_eq!(decode_single(b's'), Decoded::Done(Key::Down));
    assert_eq!(decode_single(b'd'), Decoded::Done(Key::Right));
    assert_eq!(decode_single(b' '), Decoded::Done(Key::Space));
    assert_eq!(decode_single(b'c'), Decoded::Done(Key::Hold));
    assert_eq!(decode_single(b'z'), Decoded::Done(Key::CtrlC));
    assert_eq!(decode_single(b'p'), Decoded::Done(Key::Pause));
    assert_eq!(decode_single(0x1b), Decoded::Escape);
    assert_eq!(decode_single(b'q'), Decoded::Done(Key::Char('q')));
    assert_eq!(decode_single(b'e'), Decoded::Done(Key::Char('e')));
    assert_eq!(decode_single(0xC3), Decoded::Invalid);
}

#[test]
fn decode_escape_maps_arrow_keys() {
    assert_eq!(decode_escape(b'[', b'A'), Some(Key::Up));
    assert_eq!(decode_escape(b'[', b'B'), Some(Key::Down));
    assert_eq!(decode_escape(b'[', b'C'), Some(Key::Right));
    assert_eq!(decode_escape(b'[', b'D'), Some(Key::Left));
    assert_eq!(decode_escape(b'[', b'E'), None);
    assert_eq!(decode_escape(b'X', b'A'), None);
}

#[test]
fn board_render_draws_walls_floor_and_cells() {
    let mut board = Board::new();
    board.set_cell(10, 3, Some(Color::Green));
    let cmds = board.render();
    let wall = CellCmd { ch: '|', x: 0, y: 2, fg: Color::Red, bg: Color::Black };
    assert!(cmds.iter().any(|c| *c == wall));
    let wall_right = CellCmd { ch: '|', x: 21, y: 19, fg: Color::Red, bg: Color::Black };
    assert!(cmds.iter().any(|c| *c == wall_right));
    let floor = CellCmd { ch: '-', x: 20, y: 20, fg: Color::Red, bg: Color::Black };
    assert!(cmds.iter().any(|c| *c == floor));
    let cell_a = CellCmd { ch: ' ', x: 7, y: 10, fg: Color::Green, bg: Color::Green };
    let cell_b = CellCmd { ch: ' ', x: 8, y: 10, fg: Color::Green, bg: Color::Green };
    assert!(cmds.iter().any(|c| *c == cell_a));
    assert!(cmds.iter().any(|c| *c == cell_b));
}

#[test]
fn game_render_draws_piece_and_ghost() {
    let mut game = Game::new();
    game.piece = Piece::new_o();
    game.piece_position = Point { x: 4, y: 0 };
    let cmds = game.render();
    // The falling O piece's top-left occupied cell.
    let active = CellCmd { ch: ' ', x: 9, y: 0, fg: Color::Yellow, bg: Color::Yellow };
    assert!(cmds.iter().any(|c| *c == active));
    // Its ghost at the landing position, in the shadow color.
    let ghost = CellCmd { ch: ' ', x: 9, y: 18, fg: Color::DarkYellow, bg: Color::DarkYellow };
    assert!(cmds.iter().any(|c| *c == ghost));
}
