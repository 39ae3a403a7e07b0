use rchess::board::BoardState;
use rchess::game::RChess;
use rchess::piece::{Kind, Piece, Player, Point};
use rchess::rules::{check_for_checkmate, check_for_checks, legal_moves, move_piece_to};

fn rows(lines: [&str; 8]) -> [[char; 8]; 8] {
    let mut r = [['-'; 8]; 8];
    for (y, line) in lines.iter().enumerate() {
        for (x, c) in line.chars().enumerate() {
            r[y][x] = c;
        }
    }
    r
}

fn play(game: &mut RChess, from: (u8, u8), to: (u8, u8)) -> bool {
    assert!(!game.click(from.0, from.1));
    assert!(game.is_moving());
    game.click(to.0, to.1)
}

#[test]
fn en_passant_flag_set_then_cleared() {
    let mut game = RChess::new();
    assert!(!play(&mut game, (4, 6), (4, 4)));
    assert_eq!(game.board_state().enp_w, 0x80 >> 4);
    assert_eq!(game.board_state().enp_b, 0);
    assert!(!play(&mut game, (0, 1), (0, 2)));
    assert_eq!(game.board_state().enp_w, 0);
    assert_eq!(game.board_state().enp_b, 0);
    assert!(!play(&mut game, (3, 6), (3, 5)));
    assert_eq!(game.board_state().enp_w, 0);
    assert!(!play(&mut game, (1, 1), (1, 3)));
    assert_eq!(game.board_state().enp_b, 0x40);
    assert_eq!(game.board_state().enp_w, 0);
    assert!(!play(&mut game, (6, 7), (5, 5)));
    assert_eq!(game.board_state().enp_b, 0);
}

#[test]
fn en_passant_capture_removes_pawn() {
    let mut state = BoardState::from_rows(
        rows([
            "k-------", "--------", "--------", "---pP---", "--------", "--------", "--------",
            "-------K",
        ]),
        Player::White,
    )
    .unwrap();
    move_piece_to(Point::new(4, 3), Point::new(3, 2), &mut state);
    assert_eq!(state.at(3, 2), 'P');
    assert_eq!(state.at(3, 3), '-');
    assert_eq!(state.at(4, 3), '-');
}

#[test]
fn fools_mate_ends_game() {
    let mut game = RChess::new();
    assert!(!play(&mut game, (5, 6), (5, 5)));
    assert!(!play(&mut game, (4, 1), (4, 3)));
    assert!(!play(&mut game, (6, 6), (6, 4)));
    assert!(play(&mut game, (3, 0), (7, 4)));
    assert!(game.is_over());
    assert!(game.board_state().w_check);
    assert!(check_for_checks(Player::White, &game.board_state()));
    assert!(!game.click(4, 6));
    assert!(!game.is_moving());
}

#[test]
fn checkmate_fixture_reports_true() {
    let state = BoardState::from_rows(
        rows([
            "-------k", "------Q-", "-----K--", "--------", "--------", "--------", "--------",
            "--------",
        ]),
        Player::Black,
    )
    .unwrap();
    assert!(state.b_check);
    assert!(check_for_checkmate(Player::Black, &state));
    assert!(!check_for_checkmate(Player::White, &state));
}

#[test]
fn stalemate_fixture_reports_true() {
    let state = BoardState::from_rows(
        rows([
            "k-------", "--Q-----", "--------", "--------", "--------", "--------", "--------",
            "-------K",
        ]),
        Player::Black,
    )
    .unwrap();
    assert!(!state.b_check);
    assert!(!check_for_checks(Player::Black, &state));
    assert!(check_for_checkmate(Player::Black, &state));
    assert!(legal_moves(Point::new(0, 0), &state).is_empty());
}

#[test]
fn applied_move_lands_and_clears_origin() {
    let mut state = BoardState::initial();
    move_piece_to(Point::new(4, 6), Point::new(4, 4), &mut state);
    assert_eq!(state.at(4, 4), 'P');
    assert_eq!(state.at(4, 6), '-');
    move_piece_to(Point::new(4, 7), Point::new(4, 6), &mut state);
    assert_eq!(state.at(4, 6), 'K');
    assert_eq!(state.at(4, 7), '-');
    assert_eq!(state.wk_pos, (4, 6));
    assert_eq!(state.bk_pos, (4, 0));
}

#[test]
fn turn_alternates_and_wrong_side_is_ignored() {
    let mut game = RChess::new();
    assert_eq!(game.turn(), Player::White);
    game.select_piece(4, 1);
    assert!(!game.is_moving());
    game.select_piece(4, 4);
    assert!(!game.is_moving());
    assert!(!play(&mut game, (4, 6), (4, 4)));
    assert_eq!(game.turn(), Player::Black);
    game.select_piece(3, 6);
    assert!(!game.is_moving());
    assert!(!play(&mut game, (4, 1), (4, 3)));
    assert_eq!(game.turn(), Player::White);
}

#[test]
fn reselecting_and_illegal_targets() {
    let mut game = RChess::new();
    game.select_piece(1, 7);
    let mut t = game.targets().clone();
    t.sort();
    assert_eq!(t, vec![(0, 5), (2, 5)]);
    assert!(!game.move_piece(1, 4));
    assert!(game.is_moving());
    assert_eq!(game.turn(), Player::White);
    assert!(!game.move_piece(3, 6));
    assert!(game.is_moving());
    let mut t = game.targets().clone();
    t.sort();
    assert_eq!(t, vec![(3, 4), (3, 5)]);
    assert!(!game.move_piece(3, 4));
    assert!(!game.is_moving());
    assert_eq!(game.turn(), Player::Black);
    assert_eq!(game.board_state().at(3, 4), 'P');
}

#[test]
fn malformed_positions_are_refused() {
    let two_white_kings = rows([
        "k-------", "--------", "--------", "--------", "--------", "--------", "--------",
        "K------K",
    ]);
    assert!(BoardState::from_rows(two_white_kings, Player::White).is_none());
    let no_black_king = rows([
        "--------", "--------", "--------", "--------", "--------", "--------", "--------",
        "K-------",
    ]);
    assert!(BoardState::from_rows(no_black_king, Player::White).is_none());
    let bad_symbol = rows([
        "k-------", "--------", "---x----", "--------", "--------", "--------", "--------",
        "K-------",
    ]);
    assert!(BoardState::from_rows(bad_symbol, Player::White).is_none());
    let fine = BoardState::from_rows(
        rows([
            "k-------", "--------", "--------", "--------", "--------", "--------", "--------",
            "K-------",
        ]),
        Player::White,
    )
    .unwrap();
    assert_eq!(fine.wk_pos, (0, 7));
    assert_eq!(fine.bk_pos, (0, 0));
    assert!(!fine.w_check && !fine.b_check);
}

#[test]
fn pieces_and_symbols() {
    assert_eq!(Piece::new(Kind::Queen, Player::White).label(), 'Q');
    assert_eq!(Piece::new(Kind::Knight, Player::Black).label(), 'n');
    assert_eq!(Piece::from_label('b'), Some(Piece::new(Kind::Bishop, Player::Black)));
    assert_eq!(Piece::from_label('-'), None);
    let game = RChess::new();
    assert_eq!(game.piece_at(4, 7), Some(Piece::new(Kind::King, Player::White)));
    assert_eq!(game.piece_at(4, 4), None);
    assert_eq!(Player::White.switch(), Player::Black);
    assert_eq!(Player::Black.switch(), Player::White);
}

#[test]
fn mate_in_one_from_a_fixture() {
    let state = BoardState::from_rows(
        rows([
            "-------k", "--------", "-----K--", "--------", "--------", "--------", "--------",
            "------Q-",
        ]),
        Player::White,
    )
    .unwrap();
    assert!(!state.b_check);
    let mut game = RChess::from_state(state);
    assert!(play(&mut game, (6, 7), (6, 1)));
    assert!(game.is_over());
    assert!(game.board_state().b_check);
    assert_eq!(game.turn(), Player::Black);
}

#[test]
fn stalemate_from_a_fixture_ends_game() {
    let state = BoardState::from_rows(
        rows([
            "k-------", "--------", "--------", "--------", "--Q-----", "--------", "--------",
            "-------K",
        ]),
        Player::White,
    )
    .unwrap();
    let mut game = RChess::from_state(state);
    assert!(play(&mut game, (2, 4), (2, 1)));
    assert!(game.is_over());
    assert!(!game.board_state().b_check);
    assert!(!check_for_checks(Player::Black, &game.board_state()));
}

#[test]
fn selecting_each_white_piece_offers_twenty_targets() {
    let mut total = 0;
    for y in 6..8u8 {
        for x in 0..8u8 {
            let mut game = RChess::new();
            game.select_piece(x, y);
            total += game.targets().len();
        }
    }
    assert_eq!(total, 20);
}
