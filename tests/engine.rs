use rchess::board::BoardState;
use rchess::moves::{get_line_moves, get_piece_moves, mv_king, mv_knight, mv_rook};
use rchess::piece::{Player, Point};
use rchess::rules::{check_for_checkmate, legal_moves};

fn rows(lines: [&str; 8]) -> [[char; 8]; 8] {
    let mut r = [['-'; 8]; 8];
    for (y, line) in lines.iter().enumerate() {
        for (x, c) in line.chars().enumerate() {
            r[y][x] = c;
        }
    }
    r
}

fn position(lines: [&str; 8], player: Player) -> BoardState {
    BoardState::from_rows(rows(lines), player).expect("a valid position")
}

fn sorted(mut v: Vec<(u8, u8)>) -> Vec<(u8, u8)> {
    v.sort();
    v
}

fn total_legal_moves(state: &BoardState) -> usize {
    let mut n = 0;
    for y in 0..8u8 {
        for x in 0..8u8 {
            n += sorted(legal_moves(Point::new(x, y), state)).len();
        }
    }
    n
}

#[test]
fn check() {}

#[test]
fn initial_position_has_twenty_moves() {
    let state = BoardState::initial();
    assert_eq!(total_legal_moves(&state), 20);
    let mut pawn_moves = 0;
    let mut knight_moves = 0;
    for x in 0..8u8 {
        pawn_moves += legal_moves(Point::new(x, 6), &state).len();
    }
    knight_moves += legal_moves(Point::new(1, 7), &state).len();
    knight_moves += legal_moves(Point::new(6, 7), &state).len();
    assert_eq!(pawn_moves, 16);
    assert_eq!(knight_moves, 4);
    assert!(!check_for_checkmate(Player::White, &state));
}

#[test]
fn side_not_to_move_gets_no_moves() {
    let state = BoardState::initial();
    for y in 0..2u8 {
        for x in 0..8u8 {
            assert!(legal_moves(Point::new(x, y), &state).is_empty());
        }
    }
    for x in 0..8u8 {
        assert!(legal_moves(Point::new(x, 4), &state).is_empty());
    }
}

#[test]
fn knight_from_start() {
    let state = BoardState::initial();
    assert_eq!(sorted(mv_knight(Point::new(1, 7), &state)), vec![(0, 5), (2, 5)]);
}

#[test]
fn pinned_rook_cannot_leave_file() {
    let state = position(
        [
            "k---r---", "--------", "--------", "--------", "--------", "--------", "----R---",
            "----K---",
        ],
        Player::White,
    );
    let pseudo = sorted(get_piece_moves('R', Point::new(4, 6), &state));
    assert!(pseudo.contains(&(3, 6)));
    assert!(pseudo.contains(&(0, 6)));
    let legal = sorted(legal_moves(Point::new(4, 6), &state));
    assert_eq!(legal, vec![(4, 0), (4, 1), (4, 2), (4, 3), (4, 4), (4, 5)]);
}

#[test]
fn king_may_not_step_into_check() {
    let state = position(
        [
            "k-------", "--------", "--------", "--------", "--------", "--------", "---r----",
            "-------K",
        ],
        Player::White,
    );
    let legal = sorted(legal_moves(Point::new(7, 7), &state));
    assert_eq!(legal, vec![(6, 7)]);
    let pseudo = sorted(mv_king(Point::new(7, 7), &state));
    assert_eq!(pseudo, vec![(6, 6), (6, 7), (7, 6)]);
}

#[test]
fn rook_stops_at_first_piece() {
    let state = position(
        [
            "k-------", "--------", "---P----", "--------", "---R--p-", "--------", "--------",
            "-------K",
        ],
        Player::White,
    );
    let moves = sorted(mv_rook(Point::new(3, 4), &state));
    assert_eq!(
        moves,
        vec![
            (0, 4),
            (1, 4),
            (2, 4),
            (3, 3),
            (3, 5),
            (3, 6),
            (3, 7),
            (4, 4),
            (5, 4),
            (6, 4)
        ]
    );
    assert!(!moves.contains(&(3, 2)));
    assert!(!moves.contains(&(7, 4)));
}

#[test]
fn line_moves_to_the_edge() {
    let state = position(
        [
            "-------k", "--------", "--------", "--------", "--------", "--------", "--------",
            "R------K",
        ],
        Player::White,
    );
    let up = sorted(get_line_moves(&Point::new(0, 7), Point::new(0, -1), &state));
    assert_eq!(up, vec![(0, 0), (0, 1), (0, 2), (0, 3), (0, 4), (0, 5), (0, 6)]);
    let right = sorted(get_line_moves(&Point::new(0, 7), Point::new(1, 0), &state));
    assert_eq!(right, vec![(1, 7), (2, 7), (3, 7), (4, 7), (5, 7), (6, 7)]);
}

#[test]
fn king_in_corner_has_moves() {
    let state = position(
        [
            "K-------", "--------", "--------", "--------", "--------", "--------", "--------",
            "-------k",
        ],
        Player::White,
    );
    assert_eq!(sorted(mv_king(Point::new(0, 0), &state)), vec![(0, 1), (1, 0), (1, 1)]);
}

#[test]
fn rook_lists_each_square_once() {
    let state = position(
        [
            "----k---", "---P----", "--------", "---R--p-", "--------", "--------", "--------",
            "----K---",
        ],
        Player::White,
    );
    let moves = mv_rook(Point::new(3, 3), &state);
    assert_eq!(moves.len(), 11);
    assert_eq!(
        sorted(moves),
        vec![
            (0, 3),
            (1, 3),
            (2, 3),
            (3, 2),
            (3, 4),
            (3, 5),
            (3, 6),
            (3, 7),
            (4, 3),
            (5, 3),
            (6, 3)
        ]
    );
}

#[test]
fn initial_pseudo_moves_total_twenty() {
    let state = BoardState::initial();
    let mut total = 0;
    for y in 6..8u8 {
        for x in 0..8u8 {
            total += get_piece_moves(state.at(x, y), Point::new(x, y), &state).len();
        }
    }
    assert_eq!(total, 20);
    assert_eq!(get_piece_moves('P', Point::new(4, 6), &state).len(), 2);
    assert_eq!(get_piece_moves('-', Point::new(4, 4), &state).len(), 0);
}
