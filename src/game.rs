use vstd::prelude::*;

use crate::board::{BoardState, Position};
use crate::piece::{is_own, own, Piece, Player, Point, symbol_of, white_piece, black_piece};
use crate::laws::{lemma_initial_playable, lemma_legal_move_keeps_invariant, playable};
use crate::rules::{after_move, check_for_checkmate, has_legal_move, legal_moves, legal_move, move_piece_to};

verus! {

/// The turn controller: the current position, the piece picked up (if any),
/// the squares it may go to, and whether the game has ended.
pub struct RChess {
    pub state: BoardState,
    pub current: Option<char>,
    pub current_pos: Option<(u8, u8)>,
    pub moves: Vec<(u8, u8)>,
    pub moving: bool,
    pub over: bool,
}

/// The position after the side to move plays from `(fx, fy)` to `(tx, ty)`
/// and the turn passes.
pub open spec fn next_position(p: Position, fx: int, fy: int, tx: int, ty: int) -> Position {
    after_move(p, fx, fy, tx, ty).with_player(p.player.other())
}

/// What a click on `(x, y)` does with nothing picked up: the piece there is
/// picked up when it belongs to the side to move and the game goes on;
/// otherwise nothing changes.
pub open spec fn selects(before: RChess, after: RChess, x: u8, y: u8) -> bool {
    &&& after.state == before.state
    &&& after.over == before.over
    &&& if !before.over && own(before.state.player, before.state@.at(x as int, y as int)) {
        &&& after.moving
        &&& after.current_pos == Some((x, y))
    } else {
        after == before
    }
}

/// What a click on `(x, y)` does while a piece is picked up: a legal
/// destination plays the move and passes the turn, and `r` says whether the
/// new side to move has no legal move left; another piece of the side to
/// move is picked up instead; anything else changes nothing.
pub open spec fn answers(before: RChess, after: RChess, x: u8, y: u8, r: bool) -> bool {
    if before.moving && !before.over && before.moves@.contains((x, y)) {
        let (cx, cy) = before.current_pos.unwrap();
        &&& legal_move(before.state@, cx as int, cy as int, x as int, y as int)
        &&& after.state@ == next_position(before.state@, cx as int, cy as int, x as int, y as int)
        &&& !after.moving
        &&& r == !has_legal_move(after.state@)
        &&& after.over == r
    } else if before.moving && !before.over && own(before.state.player, before.state@.at(x as int, y as int)) {
        &&& !r
        &&& after.state == before.state
        &&& after.moving
        &&& after.current_pos == Some((x, y))
        &&& !after.over
    } else {
        &&& !r
        &&& after == before
    }
}

impl RChess {
    /// The position is playable, the selection is consistent, and nothing is
    /// picked up once the game is over.
    pub open spec fn wf(&self) -> bool {
        &&& playable(self.state@)
        &&& self.picked_up_wf()
        &&& self.over ==> !self.moving
    }

    /// While a piece is picked up, `current` and `current_pos` say which and
    /// where, it belongs to the side to move, and `moves` lists exactly its
    /// legal destinations, each once; otherwise all three are empty.
    pub open spec fn picked_up_wf(&self) -> bool {
        if self.moving {
            &&& self.current_pos.is_some()
            &&& self.current_pos.unwrap().0 < 8
            &&& self.current_pos.unwrap().1 < 8
            &&& self.current == Some(
                self.state@.at(self.current_pos.unwrap().0 as int, self.current_pos.unwrap().1 as int),
            )
            &&& own(self.state.player, self.current.unwrap())
            &&& self.moves@.no_duplicates()
            &&& forall|tx: u8, ty: u8|
                #[trigger] self.moves@.contains((tx, ty)) <==> legal_move(
                    self.state@,
                    self.current_pos.unwrap().0 as int,
                    self.current_pos.unwrap().1 as int,
                    tx as int,
                    ty as int,
                )
        } else {
            &&& self.current.is_none()
            &&& self.current_pos.is_none()
            &&& self.moves@.len() == 0
        }
    }

    /// A game in the standard starting position, White to move, nothing
    /// picked up.
    pub fn new() -> (r: Self)
        ensures
            r.wf(),
            r.state.is_initial(),
            !r.moving,
            !r.over,
    {
        let state = BoardState::initial();
        proof {
            lemma_initial_playable(state);
        }
        Self::from_state(state)
    }

    /// A game that goes on from `state`, nothing picked up.
    pub fn from_state(state: BoardState) -> (r: Self)
        requires
            playable(state@),
        ensures
            r.wf(),
            r.state == state,
            !r.moving,
            !r.over,
    {
        RChess {
            state,
            current: None,
            current_pos: None,
            moves: Vec::new(),
            moving: false,
            over: false,
        }
    }

    /// Picks up the piece on `(x, y)` when it belongs to the side to move
    /// and the game goes on, and lists its legal destinations; otherwise
    /// changes nothing.
    pub fn select_piece(&mut self, x: u8, y: u8)
        requires
            x < 8,
            y < 8,
            old(self).wf(),
        ensures
            final(self).wf(),
            selects(*old(self), *final(self), x, y),
    {
        let ch = self.state.at(x, y);
        if self.over || !is_own(self.state.player, ch) {
            return;
        }
        let moves = legal_moves(Point::new(x, y), &self.state);
        self.current = Some(ch);
        self.current_pos = Some((x, y));
        self.moves = moves;
        self.moving = true;
    }

    /// Whether `(x, y)` is among the listed destinations.
    fn is_target(&self, x: u8, y: u8) -> (r: bool)
        ensures
            r == self.moves@.contains((x, y)),
    {
        let mut i: usize = 0;
        while i < self.moves.len()
            invariant
                i <= self.moves@.len(),
                forall|j: int| 0 <= j < i ==> self.moves@[j] != (x, y),
            decreases self.moves@.len() - i,
        {
            if self.moves[i].0 == x && self.moves[i].1 == y {
                return true;
            }
            i = i + 1;
        }
        false
    }

    /// Answers a click on `(x, y)` while a piece is picked up. A legal
    /// destination plays the move, passes the turn and returns whether the
    /// new side to move has no legal move left (the game is then over).
    /// Another piece of the side to move is picked up in place of the first.
    /// Anything else changes nothing. Returns true only after a move that
    /// ends the game.
    pub fn move_piece(&mut self, x: u8, y: u8) -> (r: bool)
        requires
            x < 8,
            y < 8,
            old(self).wf(),
        ensures
            final(self).wf(),
            answers(*old(self), *final(self), x, y, r),
    {
        if !self.moving || self.over {
            return false;
        }
        if self.is_target(x, y) {
            let (cx, cy) = self.current_pos.unwrap();
            proof {
                lemma_legal_move_keeps_invariant(self.state@, cx as int, cy as int, x as int, y as int);
            }
            move_piece_to(Point::new(cx, cy), Point::new(x, y), &mut self.state);
            self.state.player = self.state.player.switch();
            self.current = None;
            self.current_pos = None;
            self.moves = Vec::new();
            self.moving = false;
            let mated = check_for_checkmate(self.state.player, &self.state);
            proof {
                assert(self.state@.with_player(self.state.player) == self.state@);
            }
            self.over = mated;
            return mated;
        }
        let ch = self.state.at(x, y);
        if is_own(self.state.player, ch) {
            self.select_piece(x, y);
        }
        false
    }

    /// A click on `(x, y)`: picks up a piece when none is, and otherwise
    /// answers as `move_piece`. A square off the board changes nothing.
    /// Returns whether the game has just ended.
    pub fn click(&mut self, x: u8, y: u8) -> (r: bool)
        requires
            old(self).wf(),
        ensures
            final(self).wf(),
            if x >= 8 || y >= 8 {
                !r && *final(self) == *old(self)
            } else if old(self).moving {
                answers(*old(self), *final(self), x, y, r)
            } else {
                !r && selects(*old(self), *final(self), x, y)
            },
    {
        if x >= 8 || y >= 8 {
            return false;
        }
        if !self.moving {
            self.select_piece(x, y);
            false
        } else {
            self.move_piece(x, y)
        }
    }

    /// The current position.
    pub fn board_state(&self) -> (r: BoardState)
        ensures
            r == self.state,
    {
        self.state
    }

    /// The side to move.
    pub fn turn(&self) -> (r: Player)
        ensures
            r == self.state.player,
    {
        self.state.player
    }

    /// The destinations offered for the piece picked up.
    pub fn targets(&self) -> (r: &Vec<(u8, u8)>)
        ensures
            r@ == self.moves@,
    {
        &self.moves
    }

    /// Whether a piece is picked up.
    pub fn is_moving(&self) -> (r: bool)
        ensures
            r == self.moving,
    {
        self.moving
    }

    /// Whether the game has ended: the side to move has no legal move.
    pub fn is_over(&self) -> (r: bool)
        ensures
            r == self.over,
    {
        self.over
    }

    /// The piece on `(x, y)`, if any.
    pub fn piece_at(&self, x: u8, y: u8) -> (r: Option<Piece>)
        requires
            x < 8,
            y < 8,
        ensures
            r.is_some() <==> white_piece(self.state@.at(x as int, y as int)) || black_piece(
                self.state@.at(x as int, y as int),
            ),
            r.is_some() ==> symbol_of(r.unwrap().kind, r.unwrap().side) == self.state@.at(x as int, y as int),
    {
        Piece::from_label(self.state.at(x, y))
    }
}

} // verus!
