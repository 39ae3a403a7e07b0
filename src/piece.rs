use vstd::prelude::*;

verus! {

/// The two sides. `White` owns the upper-case symbols and moves up the board
/// (towards rank index 0); `Black` owns the lower-case symbols.
#[derive(Clone, Copy, PartialEq, Eq, Structural, Debug)]
pub enum Player {
    White,
    Black,
}

impl Player {
    pub open spec fn other(self) -> Player {
        match self {
            Player::White => Player::Black,
            Player::Black => Player::White,
        }
    }

    /// The opponent of `self`.
    pub fn switch(&self) -> (r: Self)
        ensures
            r == self.other(),
            r != *self,
    {
        match *self {
            Player::White => Player::Black,
            Player::Black => Player::White,
        }
    }
}

/// A pair of coordinates: `x` is the file, `y` the rank index (0 at the top).
#[derive(Debug)]
pub struct Point<T> {
    pub x: T,
    pub y: T,
}

impl<T> Point<T> {
    pub fn new(x: T, y: T) -> (r: Self)
        ensures
            r.x == x,
            r.y == y,
    {
        Self { x, y }
    }
}

/// The symbol of an empty square.
pub const EMPTY: char = '-';

pub open spec fn white_piece(c: char) -> bool {
    c == 'K' || c == 'Q' || c == 'R' || c == 'N' || c == 'B' || c == 'P'
}

pub open spec fn black_piece(c: char) -> bool {
    c == 'k' || c == 'q' || c == 'r' || c == 'n' || c == 'b' || c == 'p'
}

/// `c` is one of the twelve piece symbols or the empty symbol.
pub open spec fn valid_symbol(c: char) -> bool {
    white_piece(c) || black_piece(c) || c == EMPTY
}

pub open spec fn occupied(c: char) -> bool {
    c != EMPTY
}

/// `c` is a piece of `p`.
pub open spec fn own(p: Player, c: char) -> bool {
    match p {
        Player::White => white_piece(c),
        Player::Black => black_piece(c),
    }
}

/// `c` is a piece of the opponent of `p`.
pub open spec fn opponent(p: Player, c: char) -> bool {
    own(p.other(), c)
}

pub fn is_white_piece(c: char) -> (r: bool)
    ensures
        r == white_piece(c),
{
    c == 'K' || c == 'Q' || c == 'R' || c == 'N' || c == 'B' || c == 'P'
}

pub fn is_black_piece(c: char) -> (r: bool)
    ensures
        r == black_piece(c),
{
    c == 'k' || c == 'q' || c == 'r' || c == 'n' || c == 'b' || c == 'p'
}

pub fn is_opponent(p: Player, c: char) -> (r: bool)
    ensures
        r == opponent(p, c),
{
    match p {
        Player::White => is_black_piece(c),
        Player::Black => is_white_piece(c),
    }
}

pub fn is_own(p: Player, c: char) -> (r: bool)
    ensures
        r == own(p, c),
{
    match p {
        Player::White => is_white_piece(c),
        Player::Black => is_black_piece(c),
    }
}

pub fn is_piece(c: char) -> (r: bool)
    ensures
        r == occupied(c),
{
    c != EMPTY
}

/// The kinds of chess pieces.
#[derive(Clone, Copy, PartialEq, Eq, Structural, Debug)]
pub enum Kind {
    Pawn,
    Knight,
    Bishop,
    Rook,
    Queen,
    King,
}

/// A piece as a kind and a side, in place of its board symbol.
#[derive(Clone, Copy, PartialEq, Eq, Structural, Debug)]
pub struct Piece {
    pub kind: Kind,
    pub side: Player,
}

pub open spec fn kind_letter(k: Kind) -> char {
    match k {
        Kind::Pawn => 'p',
        Kind::Knight => 'n',
        Kind::Bishop => 'b',
        Kind::Rook => 'r',
        Kind::Queen => 'q',
        Kind::King => 'k',
    }
}

/// The board symbol of a piece: its kind's letter, upper case for `White`.
pub open spec fn symbol_of(k: Kind, side: Player) -> char {
    match side {
        Player::Black => kind_letter(k),
        Player::White => match k {
            Kind::Pawn => 'P',
            Kind::Knight => 'N',
            Kind::Bishop => 'B',
            Kind::Rook => 'R',
            Kind::Queen => 'Q',
            Kind::King => 'K',
        },
    }
}

impl Piece {
    pub fn new(kind: Kind, side: Player) -> (r: Self)
        ensures
            r.kind == kind,
            r.side == side,
    {
        Self { kind, side }
    }

    /// The board symbol of this piece.
    pub fn label(&self) -> (r: char)
        ensures
            r == symbol_of(self.kind, self.side),
            own(self.side, r),
    {
        match (self.side, self.kind) {
            (Player::White, Kind::Pawn) => 'P',
            (Player::White, Kind::Knight) => 'N',
            (Player::White, Kind::Bishop) => 'B',
            (Player::White, Kind::Rook) => 'R',
            (Player::White, Kind::Queen) => 'Q',
            (Player::White, Kind::King) => 'K',
            (Player::Black, Kind::Pawn) => 'p',
            (Player::Black, Kind::Knight) => 'n',
            (Player::Black, Kind::Bishop) => 'b',
            (Player::Black, Kind::Rook) => 'r',
            (Player::Black, Kind::Queen) => 'q',
            (Player::Black, Kind::King) => 'k',
        }
    }

    /// The piece that a board symbol stands for; `None` for the empty symbol
    /// and for any character that is no piece symbol.
    pub fn from_label(c: char) -> (r: Option<Piece>)
        ensures
            r.is_some() <==> white_piece(c) || black_piece(c),
            r.is_some() ==> symbol_of(r.unwrap().kind, r.unwrap().side) == c,
    {
        let side = if is_white_piece(c) {
            Player::White
        } else if is_black_piece(c) {
            Player::Black
        } else {
            return None;
        };
        let kind = if c == 'P' || c == 'p' {
            Kind::Pawn
        } else if c == 'N' || c == 'n' {
            Kind::Knight
        } else if c == 'B' || c == 'b' {
            Kind::Bishop
        } else if c == 'R' || c == 'r' {
            Kind::Rook
        } else if c == 'Q' || c == 'q' {
            Kind::Queen
        } else {
            Kind::King
        };
        Some(Piece { kind, side })
    }
}

} // verus!
