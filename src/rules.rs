use vstd::prelude::*;

use crate::board::{cell, on_board, well_formed, BoardState, Position};
use crate::moves::{all_on_board, get_piece_moves, pseudo_dest};
use crate::piece::{
    black_piece, is_black_piece, is_opponent, is_own, is_piece, own, is_white_piece, occupied, opponent, Player,
    Point, valid_symbol, white_piece, EMPTY,
};

verus! {

/// The piece on `(x, y)` belongs to the opponent of `side` and, moving for
/// its own side, could go to the square of `side`'s king.
pub open spec fn attacks_king(p: Position, side: Player, x: int, y: int) -> bool {
    &&& on_board(x, y)
    &&& opponent(side, p.at(x, y))
    &&& pseudo_dest(
        p.cells,
        side.other(),
        p.at(x, y),
        x,
        y,
        p.king_of(side).0,
        p.king_of(side).1,
    )
}

/// `side`'s king, where the position says it stands, is attacked.
pub open spec fn in_check(p: Position, side: Player) -> bool {
    exists|x: int, y: int| #[trigger] attacks_king(p, side, x, y)
}

/// Whether a side is in check depends on the squares and the kings' squares
/// alone.
pub proof fn lemma_in_check_frame(p: Position, q: Position, side: Player)
    requires
        p.cells == q.cells,
        p.white_king == q.white_king,
        p.black_king == q.black_king,
    ensures
        in_check(p, side) == in_check(q, side),
{
    assert forall|x: int, y: int| attacks_king(p, side, x, y) == attacks_king(q, side, x, y) by {}
    if in_check(p, side) {
        let (x, y) = choose|x: int, y: int| attacks_king(p, side, x, y);
        assert(attacks_king(q, side, x, y));
    }
    if in_check(q, side) {
        let (x, y) = choose|x: int, y: int| attacks_king(q, side, x, y);
        assert(attacks_king(p, side, x, y));
    }
}

/// The en-passant bit of file `x`.
pub open spec fn ep_mask(x: int) -> u8 {
    0x80u8 >> (x as u8)
}

/// The pawn moving from `(fx, fy)` to `(tx, ty)` takes an opponent's pawn en
/// passant: it moves diagonally from its side's fifth rank onto an empty
/// square, and the square beside it, on the rank it leaves, holds the
/// opponent's pawn.
pub open spec fn takes_en_passant(p: Position, fx: int, fy: int, tx: int, ty: int) -> bool {
    let ch = p.at(fx, fy);
    ||| ch == 'p' && fy == 4 && ty == 5 && tx != fx && !occupied(p.at(tx, ty)) && p.at(tx, fy)
        == 'P'
    ||| ch == 'P' && fy == 3 && ty == 2 && tx != fx && !occupied(p.at(tx, ty)) && p.at(tx, fy)
        == 'p'
}

/// The position after the piece on `(fx, fy)` goes to `(tx, ty)`, before the
/// check flags are brought up to date: en-passant bits cleared but for a
/// pawn's double step, a pawn taken en passant removed, the king's square
/// followed, the piece written on its destination and its origin emptied.
pub open spec fn moved(p: Position, fx: int, fy: int, tx: int, ty: int) -> Position {
    let ch = p.at(fx, fy);
    let cells = if takes_en_passant(p, fx, fy, tx, ty) {
        p.cells.update(cell(tx, fy), EMPTY)
    } else {
        p.cells
    };
    Position {
        cells: cells.update(cell(tx, ty), ch).update(cell(fx, fy), EMPTY),
        white_king: if ch == 'K' { (tx, ty) } else { p.white_king },
        black_king: if ch == 'k' { (tx, ty) } else { p.black_king },
        ep_white: if ch == 'P' && fy == 6 && ty == 4 { ep_mask(fx) } else { 0 },
        ep_black: if ch == 'p' && fy == 1 && ty == 3 { ep_mask(fx) } else { 0 },
        ..p
    }
}

/// The position after the piece on `(fx, fy)` goes to `(tx, ty)`: `moved`,
/// with the check flag of the side that did not move set to whether its king
/// is now attacked.
pub open spec fn after_move(p: Position, fx: int, fy: int, tx: int, ty: int) -> Position {
    let m = moved(p, fx, fy, tx, ty);
    let ch = p.at(fx, fy);
    if white_piece(ch) {
        Position { black_check: in_check(m, Player::Black), ..m }
    } else if black_piece(ch) {
        Position { white_check: in_check(m, Player::White), ..m }
    } else {
        m
    }
}

/// Whether `v` lists the square `t`.
fn has_square(v: &Vec<(u8, u8)>, t: (u8, u8)) -> (r: bool)
    ensures
        r == v@.contains(t),
{
    let mut i: usize = 0;
    while i < v.len()
        invariant
            i <= v@.len(),
            forall|j: int| 0 <= j < i ==> v@[j] != t,
        decreases v@.len() - i,
    {
        if v[i].0 == t.0 && v[i].1 == t.1 {
            return true;
        }
        i = i + 1;
    }
    false
}

/// Whether `plyr`'s king, at the square the state records for it, is
/// attacked by any piece of the other side.
pub fn check_for_checks(plyr: Player, state: &BoardState) -> (r: bool)
    ensures
        r == in_check(state@, plyr),
{
    let mut probe = *state;
    probe.player = plyr.switch();
    let k_pos = match plyr {
        Player::White => state.wk_pos,
        Player::Black => state.bk_pos,
    };
    let ghost p = state@;
    let mut y: u8 = 0;
    while y < 8
        invariant
            y <= 8,
            p == state@,
            probe@.cells == p.cells,
            probe.player == plyr.other(),
            k_pos.0 as int == p.king_of(plyr).0,
            k_pos.1 as int == p.king_of(plyr).1,
            forall|xx: int, yy: int| 0 <= yy < y ==> !#[trigger] attacks_king(p, plyr, xx, yy),
        decreases 8 - y,
    {
        let mut x: u8 = 0;
        while x < 8
            invariant
                x <= 8,
                y < 8,
                p == state@,
                probe@.cells == p.cells,
                probe.player == plyr.other(),
                k_pos.0 as int == p.king_of(plyr).0,
                k_pos.1 as int == p.king_of(plyr).1,
                forall|xx: int, yy: int|
                    0 <= yy < y || (yy == y && xx < x) ==> !#[trigger] attacks_king(p, plyr, xx, yy),
            decreases 8 - x,
        {
            let ch = state.at(x, y);
            if is_opponent(plyr, ch) {
                let moves = get_piece_moves(ch, Point::new(x, y), &probe);
                if has_square(&moves, k_pos) {
                    assert(attacks_king(p, plyr, x as int, y as int));
                    return true;
                }
            }
            x = x + 1;
        }
        y = y + 1;
    }
    proof {
        assert forall|xx: int, yy: int| !#[trigger] attacks_king(p, plyr, xx, yy) by {
            if on_board(xx, yy) {
                assert(0 <= yy < y);
            }
        }
    }
    false
}

/// Plays the piece on `from` to `to`, without asking whether the move is
/// legal: see `after_move` for what changes.
pub fn move_piece_to(from: Point<u8>, to: Point<u8>, state: &mut BoardState)
    requires
        from.x < 8,
        from.y < 8,
        to.x < 8,
        to.y < 8,
    ensures
        final(state)@ == after_move(old(state)@, from.x as int, from.y as int, to.x as int, to.y as int),
{
    let ghost p = state@;
    let ch = state.at(from.x, from.y);
    state.enp_b = 0;
    state.enp_w = 0;
    if ch == 'K' {
        state.wk_pos = (to.x, to.y);
    } else if ch == 'k' {
        state.bk_pos = (to.x, to.y);
    }
    if ch == 'p' {
        if from.y == 1 && to.y == 3 {
            state.enp_b = 0x80u8 >> from.x;
        } else if from.y == 4 && to.y == 5 && from.x != to.x && !is_piece(state.at(to.x, to.y))
            && state.at(to.x, from.y) == 'P' {
            state.set(to.x, from.y, EMPTY);
        }
    } else if ch == 'P' {
        if from.y == 6 && to.y == 4 {
            state.enp_w = 0x80u8 >> from.x;
        } else if from.y == 3 && to.y == 2 && from.x != to.x && !is_piece(state.at(to.x, to.y))
            && state.at(to.x, from.y) == 'p' {
            state.set(to.x, from.y, EMPTY);
        }
    }
    state.set(to.x, to.y, ch);
    state.set(from.x, from.y, EMPTY);
    assert(state@ == moved(p, from.x as int, from.y as int, to.x as int, to.y as int));
    if is_white_piece(ch) {
        state.b_check = check_for_checks(Player::Black, state);
    } else if is_black_piece(ch) {
        state.w_check = check_for_checks(Player::White, state);
    }
}

/// The piece on `(fx, fy)` belongs to the side to move, may go to
/// `(tx, ty)` by its movement rules, and its own king is not attacked after.
pub open spec fn legal_move(p: Position, fx: int, fy: int, tx: int, ty: int) -> bool {
    &&& on_board(fx, fy)
    &&& own(p.player, p.at(fx, fy))
    &&& pseudo_dest(p.cells, p.player, p.at(fx, fy), fx, fy, tx, ty)
    &&& !in_check(after_move(p, fx, fy, tx, ty), p.player)
}

/// The side to move has at least one legal move.
pub open spec fn has_legal_move(p: Position) -> bool {
    exists|fx: int, fy: int, tx: int, ty: int| #[trigger] legal_move(p, fx, fy, tx, ty)
}

/// Pseudo-legal destinations lie on the board.
pub proof fn lemma_pseudo_on_board(
    b: Seq<char>,
    mover: Player,
    ch: char,
    x: int,
    y: int,
    tx: int,
    ty: int,
)
    requires
        pseudo_dest(b, mover, ch, x, y, tx, ty),
    ensures
        on_board(tx, ty),
{
}

/// The legal destinations of the piece on `from`: none when the square is
/// empty or holds a piece of the side not to move; otherwise each
/// pseudo-legal destination after which, played on a scratch copy, the
/// mover's king is not attacked.
pub fn legal_moves(from: Point<u8>, state: &BoardState) -> (r: Vec<(u8, u8)>)
    requires
        from.x < 8,
        from.y < 8,
    ensures
        all_on_board(r@),
        r@.no_duplicates(),
        forall|tx: u8, ty: u8|
            #[trigger] r@.contains((tx, ty)) <==> legal_move(
                state@,
                from.x as int,
                from.y as int,
                tx as int,
                ty as int,
            ),
{
    let ghost p = state@;
    let ghost fx = from.x as int;
    let ghost fy = from.y as int;
    let mut moves: Vec<(u8, u8)> = Vec::new();
    let ch = state.at(from.x, from.y);
    if !is_own(state.player, ch) {
        return moves;
    }
    let cands = get_piece_moves(ch, Point::new(from.x, from.y), state);
    let mut i: usize = 0;
    while i < cands.len()
        invariant
            p == state@,
            fx == from.x as int,
            fy == from.y as int,
            from.x < 8,
            from.y < 8,
            ch == p.at(fx, fy),
            own(p.player, ch),
            i <= cands@.len(),
            all_on_board(cands@),
            all_on_board(moves@),
            cands@.no_duplicates(),
            moves@.no_duplicates(),
            forall|tx: u8, ty: u8|
                #[trigger] cands@.contains((tx, ty)) <==> pseudo_dest(
                    p.cells,
                    p.player,
                    ch,
                    fx,
                    fy,
                    tx as int,
                    ty as int,
                ),
            forall|tx: u8, ty: u8|
                #[trigger] moves@.contains((tx, ty)) <==> (cands@.subrange(0, i as int).contains(
                    (tx, ty),
                ) && legal_move(p, fx, fy, tx as int, ty as int)),
        decreases cands@.len() - i,
    {
        let (m_x, m_y) = cands[i];
        assert(cands@[i as int].0 < 8 && cands@[i as int].1 < 8);
        let mut scratch = *state;
        move_piece_to(Point::new(from.x, from.y), Point::new(m_x, m_y), &mut scratch);
        let checked = check_for_checks(state.player, &scratch);
        let ghost before = moves@;
        proof {
            assert(cands@.contains((m_x, m_y)));
            assert(scratch@.player == p.player);
        }
        if !checked {
            proof {
                if before.contains((m_x, m_y)) {
                    let j = choose|j: int| 0 <= j < i && cands@.subrange(0, i as int)[j] == (m_x, m_y);
                    assert(cands@.subrange(0, i as int).contains((m_x, m_y)));
                    assert(cands@[j] == cands@[i as int]);
                }
            }
            moves.push((m_x, m_y));
            proof {
                assert forall|a: int, c: int|
                    0 <= a < moves@.len() && 0 <= c < moves@.len() && a != c implies moves@[a]
                    != moves@[c] by {
                    if a == before.len() {
                        assert(before.contains(moves@[c]));
                    }
                    if c == before.len() {
                        assert(before.contains(moves@[a]));
                    }
                }
            }
        }
        proof {
            let c = (m_x, m_y);
            assert(legal_move(p, fx, fy, m_x as int, m_y as int) == !checked);
            assert forall|tx: u8, ty: u8| #[trigger]
                moves@.contains((tx, ty)) <==> (cands@.subrange(0, i + 1).contains((tx, ty))
                    && legal_move(p, fx, fy, tx as int, ty as int)) by {
                let t = (tx, ty);
                let old_part = cands@.subrange(0, i as int);
                let new_part = cands@.subrange(0, i + 1);
                if new_part.contains(t) {
                    let j = choose|j: int| 0 <= j < new_part.len() && new_part[j] == t;
                    if j < i {
                        assert(old_part[j] == t);
                    }
                }
                if old_part.contains(t) {
                    let j = choose|j: int| 0 <= j < old_part.len() && old_part[j] == t;
                    assert(new_part[j] == t);
                }
                assert(new_part[i as int] == c);
                if moves@.contains(t) {
                    let j = choose|j: int| 0 <= j < moves@.len() && moves@[j] == t;
                    if j < before.len() {
                        assert(before[j] == t);
                    }
                }
                if before.contains(t) {
                    let j = choose|j: int| 0 <= j < before.len() && before[j] == t;
                    assert(moves@[j] == t);
                }
                if !checked && t == c {
                    assert(moves@[before.len() as int] == t);
                }
            }
        }
        i = i + 1;
    }
    proof {
        assert(cands@.subrange(0, cands@.len() as int) =~= cands@);
    }
    moves
}

/// Whether `plyr` has no legal move at all, with `plyr` to move: true for a
/// checkmate and for a stalemate alike.
pub fn check_for_checkmate(plyr: Player, state: &BoardState) -> (r: bool)
    ensures
        r == !has_legal_move(state@.with_player(plyr)),
{
    let mut probe = *state;
    probe.player = plyr;
    let ghost p = probe@;
    assert(p == state@.with_player(plyr));
    let mut y: u8 = 0;
    while y < 8
        invariant
            y <= 8,
            p == probe@,
            p == state@.with_player(plyr),
            forall|xx: int, yy: int, tx: int, ty: int|
                0 <= yy < y ==> !#[trigger] legal_move(p, xx, yy, tx, ty),
        decreases 8 - y,
    {
        let mut x: u8 = 0;
        while x < 8
            invariant
                x <= 8,
                y < 8,
                p == probe@,
                p == state@.with_player(plyr),
                forall|xx: int, yy: int, tx: int, ty: int|
                    0 <= yy < y || (yy == y && xx < x) ==> !#[trigger] legal_move(
                        p,
                        xx,
                        yy,
                        tx,
                        ty,
                    ),
            decreases 8 - x,
        {
            let moves = legal_moves(Point::new(x, y), &probe);
            if moves.len() > 0 {
                let t = moves[0];
                assert(moves@.contains(t));
                assert(legal_move(p, x as int, y as int, t.0 as int, t.1 as int));
                return false;
            }
            proof {
                assert forall|tx: int, ty: int| !#[trigger] legal_move(p, x as int, y as int, tx, ty) by {
                    if legal_move(p, x as int, y as int, tx, ty) {
                        lemma_pseudo_on_board(p.cells, p.player, p.at(x as int, y as int), x as int, y as int, tx, ty);
                        assert(moves@.contains((tx as u8, ty as u8)));
                    }
                }
            }
            x = x + 1;
        }
        y = y + 1;
    }
    proof {
        assert forall|xx: int, yy: int, tx: int, ty: int| !#[trigger] legal_move(p, xx, yy, tx, ty) by {
            if legal_move(p, xx, yy, tx, ty) {
                assert(0 <= yy < y);
            }
        }
    }
    true
}

/// `(x, y)` is the one square of `rows` that holds `c`.
pub open spec fn sole_square(rows: [[char; 8]; 8], c: char, x: int, y: int) -> bool {
    &&& on_board(x, y)
    &&& rows@[y]@[x] == c
    &&& forall|x2: int, y2: int|
        on_board(x2, y2) && #[trigger] rows@[y2]@[x2] == c ==> x2 == x && y2 == y
}

/// Every square of `rows` holds a piece symbol or the empty symbol.
pub open spec fn rows_valid(rows: [[char; 8]; 8]) -> bool {
    forall|x: int, y: int| on_board(x, y) ==> valid_symbol(#[trigger] rows@[y]@[x])
}

/// The square of `rows` that alone holds `c`, or `None` when `c` is on no
/// square or on more than one.
fn find_sole(rows: &[[char; 8]; 8], c: char) -> (r: Option<(u8, u8)>)
    ensures
        match r {
            Some(q) => sole_square(*rows, c, q.0 as int, q.1 as int),
            None => forall|x: int, y: int| !sole_square(*rows, c, x, y),
        },
{
    let mut found: Option<(u8, u8)> = None;
    let mut y: u8 = 0;
    while y < 8
        invariant
            y <= 8,
            match found {
                None => forall|x2: int, y2: int|
                    on_board(x2, y2) && y2 < y ==> #[trigger] rows@[y2]@[x2] != c,
                Some(q) => {
                    &&& on_board(q.0 as int, q.1 as int)
                    &&& (q.1 as int) < y
                    &&& rows@[q.1 as int]@[q.0 as int] == c
                    &&& forall|x2: int, y2: int|
                        on_board(x2, y2) && y2 < y && #[trigger] rows@[y2]@[x2] == c ==> x2
                            == q.0 && y2 == q.1
                },
            },
        decreases 8 - y,
    {
        let mut x: u8 = 0;
        while x < 8
            invariant
                x <= 8,
                y < 8,
                match found {
                    None => forall|x2: int, y2: int|
                        on_board(x2, y2) && (y2 < y || (y2 == y && x2 < x)) ==> #[trigger] rows@[y2]@[x2]
                            != c,
                    Some(q) => {
                        &&& on_board(q.0 as int, q.1 as int)
                        &&& (q.1 as int) < y || (q.1 == y && q.0 < x)
                        &&& rows@[q.1 as int]@[q.0 as int] == c
                        &&& forall|x2: int, y2: int|
                            on_board(x2, y2) && (y2 < y || (y2 == y && x2 < x)) && #[trigger] rows@[y2]@[x2]
                                == c ==> x2 == q.0 && y2 == q.1
                    },
                },
            decreases 8 - x,
        {
            if rows[y as usize][x as usize] == c {
                match found {
                    Some(q) => {
                        proof {
                            assert forall|x3: int, y3: int| !sole_square(*rows, c, x3, y3) by {
                                if sole_square(*rows, c, x3, y3) {
                                    assert(rows@[y as int]@[x as int] == c);
                                    assert(rows@[q.1 as int]@[q.0 as int] == c);
                                }
                            }
                        }
                        return None;
                    },
                    None => {
                        found = Some((x, y));
                    },
                }
            }
            x = x + 1;
        }
        y = y + 1;
    }
    match found {
        Some(q) => {},
        None => {
            assert forall|x3: int, y3: int| !sole_square(*rows, c, x3, y3) by {
                if sole_square(*rows, c, x3, y3) {
                    assert(rows@[y3]@[x3] == c);
                }
            }
        },
    }
    found
}

impl BoardState {
    /// The position that `rows` shows, rank 0 first, with `player` to move,
    /// no en-passant bit, every castling right, and each side's check flag
    /// computed. `None` when a square holds any other symbol than a piece's
    /// or the empty one, or when either side has not exactly one king.
    pub fn from_rows(rows: [[char; 8]; 8], player: Player) -> (r: Option<BoardState>)
        ensures
            r.is_some() <==> rows_valid(rows) && (exists|x: int, y: int|
                sole_square(rows, 'K', x, y)) && (exists|x: int, y: int|
                sole_square(rows, 'k', x, y)),
            r.is_some() ==> {
                let s = r.unwrap();
                &&& forall|x: int, y: int| on_board(x, y) ==> s@.at(x, y) == rows@[y]@[x]
                &&& s.player == player
                &&& sole_square(rows, 'K', s.wk_pos.0 as int, s.wk_pos.1 as int)
                &&& sole_square(rows, 'k', s.bk_pos.0 as int, s.bk_pos.1 as int)
                &&& s.enp_w == 0 && s.enp_b == 0
                &&& s.castling == 0b1111
                &&& s.w_check == in_check(s@, Player::White)
                &&& s.b_check == in_check(s@, Player::Black)
                &&& well_formed(s@)
            },
    {
        let mut board: [char; 64] = [EMPTY; 64];
        let mut y: u8 = 0;
        while y < 8
            invariant
                y <= 8,
                board@.len() == 64,
                forall|x2: int, y2: int|
                    on_board(x2, y2) && y2 < y ==> board@[cell(x2, y2)] == rows@[y2]@[x2] && valid_symbol(
                        rows@[y2]@[x2],
                    ),
            decreases 8 - y,
        {
            let mut x: u8 = 0;
            while x < 8
                invariant
                    x <= 8,
                    y < 8,
                    board@.len() == 64,
                    forall|x2: int, y2: int|
                        on_board(x2, y2) && (y2 < y || (y2 == y && x2 < x)) ==> board@[cell(x2, y2)]
                            == rows@[y2]@[x2] && valid_symbol(rows@[y2]@[x2]),
                decreases 8 - x,
            {
                let c = rows[y as usize][x as usize];
                if !(is_white_piece(c) || is_black_piece(c) || c == EMPTY) {
                    return None;
                }
                board[y as usize * 8 + x as usize] = c;
                x = x + 1;
            }
            y = y + 1;
        }
        let wk = find_sole(&rows, 'K');
        let bk = find_sole(&rows, 'k');
        match (wk, bk) {
            (Some(wk_pos), Some(bk_pos)) => {
                let mut s = BoardState {
                    board,
                    player,
                    wk_pos,
                    bk_pos,
                    enp_b: 0,
                    enp_w: 0,
                    castling: 0b1111,
                    b_check: false,
                    w_check: false,
                };
                let ghost s0 = s@;
                let w_check = check_for_checks(Player::White, &s);
                let b_check = check_for_checks(Player::Black, &s);
                s.w_check = w_check;
                s.b_check = b_check;
                proof {
                    lemma_in_check_frame(s0, s@, Player::White);
                    lemma_in_check_frame(s0, s@, Player::Black);
                    assert forall|x: int, y: int| on_board(x, y) implies s@.at(x, y) == rows@[y]@[x] by {
                        assert(0 <= cell(x, y) < 64);
                    }
                    assert forall|x: int, y: int| on_board(x, y) implies valid_symbol(
                        #[trigger] s@.at(x, y),
                    ) by {
                        assert(s@.at(x, y) == rows@[y]@[x]);
                    }
                }
                Some(s)
            },
            _ => None,
        }
    }
}

} // verus!
