use vstd::prelude::*;

use crate::piece::{valid_symbol, Player, EMPTY};

verus! {

/// Both coordinates lie in `0..8`.
pub open spec fn on_board(x: int, y: int) -> bool {
    0 <= x < 8 && 0 <= y < 8
}

/// The index of square `(x, y)` in a position's cells, rank by rank.
pub open spec fn cell(x: int, y: int) -> int {
    y * 8 + x
}

/// What a board state means: its 64 squares as a sequence, rank by rank,
/// and the cached facts beside them.
pub struct Position {
    pub cells: Seq<char>,
    pub player: Player,
    pub white_king: (int, int),
    pub black_king: (int, int),
    pub ep_white: u8,
    pub ep_black: u8,
    pub castling: u8,
    pub white_check: bool,
    pub black_check: bool,
}

impl Position {
    pub open spec fn at(self, x: int, y: int) -> char {
        self.cells[cell(x, y)]
    }

    pub open spec fn with_player(self, p: Player) -> Position {
        Position { player: p, ..self }
    }

    pub open spec fn king_of(self, p: Player) -> (int, int) {
        match p {
            Player::White => self.white_king,
            Player::Black => self.black_king,
        }
    }
}

/// One position: the pieces, the side to move, where each king stands,
/// which pawn may be taken en passant (one bit per file, `0x80` for file 0),
/// the castling rights and whether each side is in check.
#[derive(Clone, Copy, Debug)]
pub struct BoardState {
    pub board: [char; 64],
    pub player: Player,
    pub wk_pos: (u8, u8),
    pub bk_pos: (u8, u8),
    pub enp_b: u8,
    pub enp_w: u8,
    pub castling: u8,
    pub b_check: bool,
    pub w_check: bool,
}

impl View for BoardState {
    type V = Position;

    open spec fn view(&self) -> Position {
        Position {
            cells: self.board@,
            player: self.player,
            white_king: (self.wk_pos.0 as int, self.wk_pos.1 as int),
            black_king: (self.bk_pos.0 as int, self.bk_pos.1 as int),
            ep_white: self.enp_w,
            ep_black: self.enp_b,
            castling: self.castling,
            white_check: self.w_check,
            black_check: self.b_check,
        }
    }
}

/// The piece that starts the game on file `x` of a back rank, in lower case:
/// rook, knight, bishop, queen, king, bishop, knight, rook.
pub open spec fn back_rank(x: int) -> char {
    if x == 0 || x == 7 {
        'r'
    } else if x == 1 || x == 6 {
        'n'
    } else if x == 2 || x == 5 {
        'b'
    } else if x == 3 {
        'q'
    } else {
        'k'
    }
}

/// The symbol on square `(x, y)` of the standard starting position: Black's
/// pieces on ranks 0 and 1, White's on ranks 6 and 7.
pub open spec fn initial_symbol(x: int, y: int) -> char {
    if y == 0 {
        back_rank(x)
    } else if y == 1 {
        'p'
    } else if y == 6 {
        'P'
    } else if y == 7 {
        match back_rank(x) {
            'r' => 'R',
            'n' => 'N',
            'b' => 'B',
            'q' => 'Q',
            _ => 'K',
        }
    } else {
        EMPTY
    }
}

/// `(x, y)` is the one square of `p` that holds `c`.
pub open spec fn sole_at(p: Position, c: char, x: int, y: int) -> bool {
    &&& on_board(x, y)
    &&& p.at(x, y) == c
    &&& forall|x2: int, y2: int| on_board(x2, y2) && #[trigger] p.at(x2, y2) == c ==> x2 == x && y2 == y
}

/// The invariant of a position: 64 squares, each with a valid symbol, and
/// each side's king on exactly one square, the one recorded for it.
pub open spec fn well_formed(p: Position) -> bool {
    &&& p.cells.len() == 64
    &&& forall|x: int, y: int| on_board(x, y) ==> valid_symbol(#[trigger] p.at(x, y))
    &&& sole_at(p, 'K', p.white_king.0, p.white_king.1)
    &&& sole_at(p, 'k', p.black_king.0, p.black_king.1)
}

impl BoardState {
    /// `self` is the standard starting position with White to move, both
    /// kings on their starting squares, no en-passant bit, every castling
    /// right and neither side in check.
    pub open spec fn is_initial(self) -> bool {
        &&& forall|x: int, y: int| on_board(x, y) ==> #[trigger] self@.at(x, y) == initial_symbol(x, y)
        &&& self.player == Player::White
        &&& self.wk_pos == (4u8, 7u8)
        &&& self.bk_pos == (4u8, 0u8)
        &&& self.enp_w == 0 && self.enp_b == 0
        &&& self.castling == 0b1111
        &&& !self.w_check && !self.b_check
        &&& well_formed(self@)
    }

    /// The symbol on square `(x, y)`.
    pub fn at(&self, x: u8, y: u8) -> (r: char)
        requires
            x < 8,
            y < 8,
        ensures
            r == self@.at(x as int, y as int),
    {
        self.board[y as usize * 8 + x as usize]
    }

    /// Writes `c` on square `(x, y)`.
    pub fn set(&mut self, x: u8, y: u8, c: char)
        requires
            x < 8,
            y < 8,
        ensures
            final(self)@ == (Position { cells: old(self)@.cells.update(cell(x as int, y as int), c), ..old(self)@ }),
    {
        self.board[y as usize * 8 + x as usize] = c;
    }

    /// The standard starting position, White to move.
    pub fn initial() -> (r: Self)
        ensures
            r.is_initial(),
    {
        let e = EMPTY;
        let board: [char; 64] = [
            'r', 'n', 'b', 'q', 'k', 'b', 'n', 'r',
            'p', 'p', 'p', 'p', 'p', 'p', 'p', 'p',
            e, e, e, e, e, e, e, e,
            e, e, e, e, e, e, e, e,
            e, e, e, e, e, e, e, e,
            e, e, e, e, e, e, e, e,
            'P', 'P', 'P', 'P', 'P', 'P', 'P', 'P',
            'R', 'N', 'B', 'Q', 'K', 'B', 'N', 'R',
        ];
        let r = BoardState {
            board,
            player: Player::White,
            wk_pos: (4, 7),
            bk_pos: (4, 0),
            enp_b: 0,
            enp_w: 0,
            castling: 0b1111,
            b_check: false,
            w_check: false,
        };
        proof {
            assert forall|x: int, y: int| on_board(x, y) implies r@.at(x, y) == initial_symbol(x, y) by {
                assert(0 <= cell(x, y) < 64);
            }
        }
        r
    }
}

} // verus!
