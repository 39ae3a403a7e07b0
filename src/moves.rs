use vstd::prelude::*;

use crate::board::{cell, on_board, BoardState};
use crate::piece::{is_opponent, is_piece, occupied, opponent, Player, Point};

verus! {

/// The symbol on square `(x, y)` of the cells `b`.
pub open spec fn sq(b: Seq<char>, x: int, y: int) -> char {
    b[cell(x, y)]
}

/// A piece of `mover` may end its move on `(x, y)`: the square is empty or
/// holds an opponent's piece.
pub open spec fn capturable(b: Seq<char>, mover: Player, x: int, y: int) -> bool {
    !occupied(sq(b, x, y)) || opponent(mover, sq(b, x, y))
}

/// `x` moved `k` steps in direction `d`, where `d` is -1, 0 or 1.
pub open spec fn shift(x: int, d: int, k: int) -> int {
    if d > 0 {
        x + k
    } else if d < 0 {
        x - k
    } else {
        x
    }
}

/// The squares strictly between `(x, y)` and the `k`-th step in direction
/// `(dx, dy)` are empty.
pub open spec fn clear_path(b: Seq<char>, x: int, y: int, dx: int, dy: int, k: int) -> bool {
    forall|j: int| 1 <= j < k ==> !occupied(#[trigger] sq(b, shift(x, dx, j), shift(y, dy, j)))
}

/// `(tx, ty)` is the `k`-th step from `(x, y)` in direction `(dx, dy)`, on
/// the board, with every square before it empty, and `mover` may end there.
pub open spec fn ray_hit(
    b: Seq<char>,
    mover: Player,
    x: int,
    y: int,
    dx: int,
    dy: int,
    k: int,
    tx: int,
    ty: int,
) -> bool {
    &&& 1 <= k
    &&& tx == shift(x, dx, k)
    &&& ty == shift(y, dy, k)
    &&& on_board(tx, ty)
    &&& clear_path(b, x, y, dx, dy, k)
    &&& capturable(b, mover, tx, ty)
}

/// A piece sliding from `(x, y)` in direction `(dx, dy)` reaches `(tx, ty)`.
pub open spec fn line_dest(
    b: Seq<char>,
    mover: Player,
    x: int,
    y: int,
    dx: int,
    dy: int,
    tx: int,
    ty: int,
) -> bool {
    exists|k: int| #[trigger] ray_hit(b, mover, x, y, dx, dy, k, tx, ty)
}

/// A direction of a sliding piece: each component -1, 0 or 1, not both 0.
pub open spec fn direction(dx: int, dy: int) -> bool {
    -1 <= dx <= 1 && -1 <= dy <= 1 && !(dx == 0 && dy == 0)
}

pub open spec fn pawn_dest(b: Seq<char>, mover: Player, x: int, y: int, tx: int, ty: int) -> bool {
    let d: int = if mover == Player::White { -1 } else { 1 };
    let start: int = if mover == Player::White { 6 } else { 1 };
    &&& on_board(tx, ty)
    &&& {
        ||| tx == x && ty == y + d && !occupied(sq(b, tx, ty))
        ||| tx == x && ty == y + 2 * d && y == start && !occupied(sq(b, x, y + d))
            && !occupied(sq(b, tx, ty))
        ||| (tx == x + 1 || tx == x - 1) && ty == y + d && opponent(mover, sq(b, tx, ty))
    }
}

pub open spec fn knight_jump(dx: int, dy: int) -> bool {
    ||| (dx == 1 || dx == -1) && (dy == 2 || dy == -2)
    ||| (dx == 2 || dx == -2) && (dy == 1 || dy == -1)
}

pub open spec fn knight_dest(b: Seq<char>, mover: Player, x: int, y: int, tx: int, ty: int) -> bool {
    on_board(tx, ty) && knight_jump(tx - x, ty - y) && capturable(b, mover, tx, ty)
}

pub open spec fn king_dest(b: Seq<char>, mover: Player, x: int, y: int, tx: int, ty: int) -> bool {
    on_board(tx, ty) && direction(tx - x, ty - y) && capturable(b, mover, tx, ty)
}

pub open spec fn rook_dest(b: Seq<char>, mover: Player, x: int, y: int, tx: int, ty: int) -> bool {
    ||| line_dest(b, mover, x, y, 0, 1, tx, ty)
    ||| line_dest(b, mover, x, y, 0, -1, tx, ty)
    ||| line_dest(b, mover, x, y, 1, 0, tx, ty)
    ||| line_dest(b, mover, x, y, -1, 0, tx, ty)
}

pub open spec fn bishop_dest(b: Seq<char>, mover: Player, x: int, y: int, tx: int, ty: int) -> bool {
    ||| line_dest(b, mover, x, y, 1, 1, tx, ty)
    ||| line_dest(b, mover, x, y, 1, -1, tx, ty)
    ||| line_dest(b, mover, x, y, -1, -1, tx, ty)
    ||| line_dest(b, mover, x, y, -1, 1, tx, ty)
}

pub open spec fn queen_dest(b: Seq<char>, mover: Player, x: int, y: int, tx: int, ty: int) -> bool {
    rook_dest(b, mover, x, y, tx, ty) || bishop_dest(b, mover, x, y, tx, ty)
}

/// The pseudo-legal moves: a piece with symbol `ch` on `(x, y)`, moving for
/// `mover`, may go to `(tx, ty)` by its movement rules, whatever becomes of
/// its own king.
pub open spec fn pseudo_dest(
    b: Seq<char>,
    mover: Player,
    ch: char,
    x: int,
    y: int,
    tx: int,
    ty: int,
) -> bool {
    if ch == 'p' || ch == 'P' {
        pawn_dest(b, mover, x, y, tx, ty)
    } else if ch == 'r' || ch == 'R' {
        rook_dest(b, mover, x, y, tx, ty)
    } else if ch == 'n' || ch == 'N' {
        knight_dest(b, mover, x, y, tx, ty)
    } else if ch == 'b' || ch == 'B' {
        bishop_dest(b, mover, x, y, tx, ty)
    } else if ch == 'q' || ch == 'Q' {
        queen_dest(b, mover, x, y, tx, ty)
    } else if ch == 'k' || ch == 'K' {
        king_dest(b, mover, x, y, tx, ty)
    } else {
        false
    }
}

/// Squares listed in a move list are on the board.
pub open spec fn all_on_board(s: Seq<(u8, u8)>) -> bool {
    forall|i: int| 0 <= i < s.len() ==> (#[trigger] s[i]).0 < 8 && s[i].1 < 8
}

pub proof fn lemma_add_contains(a: Seq<(u8, u8)>, b: Seq<(u8, u8)>)
    ensures
        forall|t: (u8, u8)| #[trigger] (a + b).contains(t) <==> a.contains(t) || b.contains(t),
{
    assert forall|t: (u8, u8)| #[trigger] (a + b).contains(t) <==> a.contains(t) || b.contains(t) by {
        if (a + b).contains(t) {
            let i = choose|i: int| 0 <= i < (a + b).len() && (a + b)[i] == t;
            if i >= a.len() {
                assert(b[i - a.len()] == t);
            }
        }
        if a.contains(t) {
            let i = choose|i: int| 0 <= i < a.len() && a[i] == t;
            assert((a + b)[i] == t);
        }
        if b.contains(t) {
            let i = choose|i: int| 0 <= i < b.len() && b[i] == t;
            assert((a + b)[a.len() + i] == t);
        }
    }
}

/// Joining two lists without repeats, which share no square, gives a list
/// without repeats.
pub proof fn lemma_add_no_duplicates(a: Seq<(u8, u8)>, b: Seq<(u8, u8)>)
    requires
        a.no_duplicates(),
        b.no_duplicates(),
        forall|t: (u8, u8)| #[trigger] a.contains(t) ==> !b.contains(t),
    ensures
        (a + b).no_duplicates(),
{
    assert forall|i: int, j: int|
        0 <= i < (a + b).len() && 0 <= j < (a + b).len() && i != j implies (a + b)[i] != (a + b)[j] by {
        if i < a.len() && j >= a.len() {
            assert(a.contains(a[i]));
            assert(b[j - a.len()] == (a + b)[j]);
        }
        if j < a.len() && i >= a.len() {
            assert(a.contains(a[j]));
            assert(b[i - a.len()] == (a + b)[i]);
        }
    }
}

/// Two different directions from one square reach no common square.
pub proof fn lemma_rays_disjoint(
    b: Seq<char>,
    mover: Player,
    x: int,
    y: int,
    dx1: int,
    dy1: int,
    dx2: int,
    dy2: int,
    tx: int,
    ty: int,
)
    requires
        direction(dx1, dy1),
        direction(dx2, dy2),
        !(dx1 == dx2 && dy1 == dy2),
    ensures
        !(line_dest(b, mover, x, y, dx1, dy1, tx, ty) && line_dest(b, mover, x, y, dx2, dy2, tx, ty)),
{
    if line_dest(b, mover, x, y, dx1, dy1, tx, ty) && line_dest(b, mover, x, y, dx2, dy2, tx, ty) {
        let k1 = choose|k: int| #[trigger] ray_hit(b, mover, x, y, dx1, dy1, k, tx, ty);
        let k2 = choose|k: int| #[trigger] ray_hit(b, mover, x, y, dx2, dy2, k, tx, ty);
        assert(ray_hit(b, mover, x, y, dx1, dy1, k1, tx, ty));
        assert(ray_hit(b, mover, x, y, dx2, dy2, k2, tx, ty));
    }
}

/// The squares that a piece on `pos` reaches sliding in direction `dpos`:
/// every empty square up to the first occupied one, and that one too when it
/// holds an opponent's piece.
pub fn get_line_moves(pos: &Point<u8>, dpos: Point<i8>, state: &BoardState) -> (r: Vec<(u8, u8)>)
    requires
        pos.x < 8,
        pos.y < 8,
        direction(dpos.x as int, dpos.y as int),
    ensures
        r@.no_duplicates(),
        r@.len() <= 7,
        forall|tx: u8, ty: u8|
            #[trigger] r@.contains((tx, ty)) <==> line_dest(
                state@.cells,
                state.player,
                pos.x as int,
                pos.y as int,
                dpos.x as int,
                dpos.y as int,
                tx as int,
                ty as int,
            ),
{
    let ghost b = state@.cells;
    let ghost mover = state.player;
    let ghost x = pos.x as int;
    let ghost y = pos.y as int;
    let ghost dx = dpos.x as int;
    let ghost dy = dpos.y as int;
    let mut m_x: i8 = pos.x as i8 + dpos.x;
    let mut m_y: i8 = pos.y as i8 + dpos.y;
    let ghost mut k: int = 1;
    let mut moves: Vec<(u8, u8)> = Vec::new();
    while 0 <= m_x && m_x < 8 && 0 <= m_y && m_y < 8
        invariant
            b == state@.cells,
            mover == state.player,
            x == pos.x as int,
            y == pos.y as int,
            dx == dpos.x as int,
            dy == dpos.y as int,
            on_board(x, y),
            direction(dx, dy),
            1 <= k <= 8,
            m_x as int == shift(x, dx, k),
            m_y as int == shift(y, dy, k),
            clear_path(b, x, y, dx, dy, k),
            forall|j: int| 1 <= j < k ==> on_board(shift(x, dx, j), shift(y, dy, j)),
            moves@.len() == k - 1,
            moves@.no_duplicates(),
            forall|j: int|
                0 <= j < k - 1 ==> #[trigger] moves@[j] == (shift(x, dx, j + 1) as u8, shift(
                    y,
                    dy,
                    j + 1,
                ) as u8),
        decreases 8 - k,
    {
        let ch = state.at(m_x as u8, m_y as u8);
        proof {
            assert forall|j: int| 0 <= j < moves@.len() implies moves@[j] != (m_x as u8, m_y as u8) by {
                assert(on_board(shift(x, dx, j + 1), shift(y, dy, j + 1)));
            }
        }
        if is_piece(ch) {
            let take = is_opponent(state.player, ch);
            if take {
                moves.push((m_x as u8, m_y as u8));
            }
            assert(moves@.no_duplicates());
            proof {
                assert forall|tx: u8, ty: u8| #[trigger]
                    moves@.contains((tx, ty)) <==> line_dest(
                        b,
                        mover,
                        x,
                        y,
                        dx,
                        dy,
                        tx as int,
                        ty as int,
                    ) by {
                    let t = (tx, ty);
                    if moves@.contains(t) {
                        let i = choose|i: int| 0 <= i < moves@.len() && moves@[i] == t;
                        assert(ray_hit(b, mover, x, y, dx, dy, i + 1, tx as int, ty as int));
                    }
                    if line_dest(b, mover, x, y, dx, dy, tx as int, ty as int) {
                        let kk = choose|kk: int| #[trigger]
                            ray_hit(b, mover, x, y, dx, dy, kk, tx as int, ty as int);
                        if kk < k {
                            assert(moves@[kk - 1] == t);
                        } else if kk == k {
                            assert(moves@[k - 1] == t);
                        } else {
                            assert(!occupied(sq(b, shift(x, dx, k), shift(y, dy, k))));
                        }
                    }
                }
            }
            return moves;
        }
        moves.push((m_x as u8, m_y as u8));
        assert(moves@.no_duplicates());
        m_x = m_x + dpos.x;
        m_y = m_y + dpos.y;
        proof {
            k = k + 1;
        }
    }
    proof {
        assert forall|tx: u8, ty: u8| #[trigger]
            moves@.contains((tx, ty)) <==> line_dest(b, mover, x, y, dx, dy, tx as int, ty as int) by {
            let t = (tx, ty);
            if moves@.contains(t) {
                let i = choose|i: int| 0 <= i < moves@.len() && moves@[i] == t;
                assert(ray_hit(b, mover, x, y, dx, dy, i + 1, tx as int, ty as int));
            }
            if line_dest(b, mover, x, y, dx, dy, tx as int, ty as int) {
                let kk = choose|kk: int| #[trigger]
                    ray_hit(b, mover, x, y, dx, dy, kk, tx as int, ty as int);
                if kk < k {
                    assert(moves@[kk - 1] == t);
                }
            }
        }
    }
    moves
}

/// Adds `(x + dx, y + dy)` to `moves` when it is on the board and a piece of
/// the side to move may end there.
fn push_step(moves: &mut Vec<(u8, u8)>, pos: &Point<u8>, dx: i8, dy: i8, state: &BoardState)
    requires
        pos.x < 8,
        pos.y < 8,
        -2 <= dx <= 2,
        -2 <= dy <= 2,
        all_on_board(old(moves)@),
        old(moves)@.no_duplicates(),
        forall|tx: u8, ty: u8|
            #[trigger] old(moves)@.contains((tx, ty)) ==> !(tx as int == pos.x + dx && ty as int
                == pos.y + dy),
    ensures
        all_on_board(final(moves)@),
        final(moves)@.no_duplicates(),
        final(moves)@.len() <= old(moves)@.len() + 1,
        forall|tx: u8, ty: u8|
            #[trigger] final(moves)@.contains((tx, ty)) <==> old(moves)@.contains((tx, ty)) || (
            tx as int == pos.x + dx && ty as int == pos.y + dy && on_board(tx as int, ty as int)
                && capturable(state@.cells, state.player, tx as int, ty as int)),
{
    let x_m: i8 = pos.x as i8 + dx;
    let y_m: i8 = pos.y as i8 + dy;
    if x_m >= 0 && x_m < 8 && y_m >= 0 && y_m < 8 {
        let ch = state.at(x_m as u8, y_m as u8);
        if !is_piece(ch) || is_opponent(state.player, ch) {
            let ghost before = moves@;
            moves.push((x_m as u8, y_m as u8));
            proof {
                assert(!before.contains((x_m as u8, y_m as u8)));
                assert forall|i: int, j: int|
                    0 <= i < moves@.len() && 0 <= j < moves@.len() && i != j implies moves@[i]
                    != moves@[j] by {
                    if i == before.len() {
                        assert(before.contains(moves@[j]));
                    }
                    if j == before.len() {
                        assert(before.contains(moves@[i]));
                    }
                }
                assert forall|t: (u8, u8)| #[trigger] moves@.contains(t) <==> before.contains(t) || t
                    == (x_m as u8, y_m as u8) by {
                    if moves@.contains(t) {
                        let i = choose|i: int| 0 <= i < moves@.len() && moves@[i] == t;
                        if i < before.len() {
                            assert(before[i] == t);
                        }
                    }
                    if before.contains(t) {
                        let i = choose|i: int| 0 <= i < before.len() && before[i] == t;
                        assert(moves@[i] == t);
                    }
                    if t == (x_m as u8, y_m as u8) {
                        assert(moves@[before.len() as int] == t);
                    }
                }
            }
        }
    }
}

/// The pawn moves of the side to move from `pos`: one step forward onto an
/// empty square, two from the starting rank over two empty squares, one step
/// diagonally forward onto an opponent's piece. Captures en passant are not
/// generated: the en-passant bits are recorded but never consulted here.
pub fn mv_pawn(pos: Point<u8>, state: &BoardState) -> (r: Vec<(u8, u8)>)
    requires
        pos.x < 8,
        pos.y < 8,
    ensures
        all_on_board(r@),
        r@.no_duplicates(),
        r@.len() <= 4,
        forall|tx: u8, ty: u8|
            #[trigger] r@.contains((tx, ty)) <==> pawn_dest(
                state@.cells,
                state.player,
                pos.x as int,
                pos.y as int,
                tx as int,
                ty as int,
            ),
{
    let mut moves: Vec<(u8, u8)> = Vec::new();
    let x = pos.x;
    let y = pos.y;
    match state.player {
        Player::White => {
            if y == 0 {
                return moves;
            }
            if !is_piece(state.at(x, y - 1)) {
                push_step(&mut moves, &pos, 0, -1, state);
                if y == 6 && !is_piece(state.at(x, y - 2)) {
                    push_step(&mut moves, &pos, 0, -2, state);
                }
            }
            if x < 7 && is_opponent(state.player, state.at(x + 1, y - 1)) {
                push_step(&mut moves, &pos, 1, -1, state);
            }
            if x > 0 && is_opponent(state.player, state.at(x - 1, y - 1)) {
                push_step(&mut moves, &pos, -1, -1, state);
            }
        },
        Player::Black => {
            if y == 7 {
                return moves;
            }
            if !is_piece(state.at(x, y + 1)) {
                push_step(&mut moves, &pos, 0, 1, state);
                if y == 1 && !is_piece(state.at(x, y + 2)) {
                    push_step(&mut moves, &pos, 0, 2, state);
                }
            }
            if x < 7 && is_opponent(state.player, state.at(x + 1, y + 1)) {
                push_step(&mut moves, &pos, 1, 1, state);
            }
            if x > 0 && is_opponent(state.player, state.at(x - 1, y + 1)) {
                push_step(&mut moves, &pos, -1, 1, state);
            }
        },
    }
    moves
}

/// The knight moves of the side to move from `pos`.
pub fn mv_knight(pos: Point<u8>, state: &BoardState) -> (r: Vec<(u8, u8)>)
    requires
        pos.x < 8,
        pos.y < 8,
    ensures
        all_on_board(r@),
        r@.no_duplicates(),
        r@.len() <= 8,
        forall|tx: u8, ty: u8|
            #[trigger] r@.contains((tx, ty)) <==> knight_dest(
                state@.cells,
                state.player,
                pos.x as int,
                pos.y as int,
                tx as int,
                ty as int,
            ),
{
    let mut moves: Vec<(u8, u8)> = Vec::new();
    push_step(&mut moves, &pos, -2, -1, state);
    push_step(&mut moves, &pos, -1, -2, state);
    push_step(&mut moves, &pos, 1, -2, state);
    push_step(&mut moves, &pos, 2, -1, state);
    push_step(&mut moves, &pos, -2, 1, state);
    push_step(&mut moves, &pos, -1, 2, state);
    push_step(&mut moves, &pos, 1, 2, state);
    push_step(&mut moves, &pos, 2, 1, state);
    moves
}

/// The king moves of the side to move from `pos`: the adjacent squares.
pub fn mv_king(pos: Point<u8>, state: &BoardState) -> (r: Vec<(u8, u8)>)
    requires
        pos.x < 8,
        pos.y < 8,
    ensures
        all_on_board(r@),
        r@.no_duplicates(),
        r@.len() <= 8,
        forall|tx: u8, ty: u8|
            #[trigger] r@.contains((tx, ty)) <==> king_dest(
                state@.cells,
                state.player,
                pos.x as int,
                pos.y as int,
                tx as int,
                ty as int,
            ),
{
    let mut moves: Vec<(u8, u8)> = Vec::new();
    push_step(&mut moves, &pos, -1, -1, state);
    push_step(&mut moves, &pos, 0, -1, state);
    push_step(&mut moves, &pos, 1, -1, state);
    push_step(&mut moves, &pos, -1, 0, state);
    push_step(&mut moves, &pos, 1, 0, state);
    push_step(&mut moves, &pos, -1, 1, state);
    push_step(&mut moves, &pos, 0, 1, state);
    push_step(&mut moves, &pos, 1, 1, state);
    moves
}

/// The bishop moves of the side to move from `pos`: the four diagonals.
pub fn mv_bishop(pos: Point<u8>, state: &BoardState) -> (r: Vec<(u8, u8)>)
    requires
        pos.x < 8,
        pos.y < 8,
    ensures
        r@.no_duplicates(),
        forall|tx: u8, ty: u8|
            #[trigger] r@.contains((tx, ty)) <==> bishop_dest(
                state@.cells,
                state.player,
                pos.x as int,
                pos.y as int,
                tx as int,
                ty as int,
            ),
{
    let ghost b = state@.cells;
    let ghost mover = state.player;
    let ghost x = pos.x as int;
    let ghost y = pos.y as int;
    let mut moves: Vec<(u8, u8)> = Vec::new();
    let mut part = get_line_moves(&pos, Point::new(1, 1), state);
    proof {
        lemma_add_no_duplicates(moves@, part@);
        lemma_add_contains(moves@, part@);
    }
    moves.append(&mut part);
    let mut part = get_line_moves(&pos, Point::new(1, -1), state);
    proof {
        assert forall|t: (u8, u8)| #[trigger] moves@.contains(t) implies !part@.contains(t) by {
            let (tx, ty) = t;
            lemma_rays_disjoint(b, mover, x, y, 1, 1, 1, -1, tx as int, ty as int);
        }
        lemma_add_no_duplicates(moves@, part@);
        lemma_add_contains(moves@, part@);
    }
    moves.append(&mut part);
    let mut part = get_line_moves(&pos, Point::new(-1, -1), state);
    proof {
        assert forall|t: (u8, u8)| #[trigger] moves@.contains(t) implies !part@.contains(t) by {
            let (tx, ty) = t;
            lemma_rays_disjoint(b, mover, x, y, 1, 1, -1, -1, tx as int, ty as int);
            lemma_rays_disjoint(b, mover, x, y, 1, -1, -1, -1, tx as int, ty as int);
        }
        lemma_add_no_duplicates(moves@, part@);
        lemma_add_contains(moves@, part@);
    }
    moves.append(&mut part);
    let mut part = get_line_moves(&pos, Point::new(-1, 1), state);
    proof {
        assert forall|t: (u8, u8)| #[trigger] moves@.contains(t) implies !part@.contains(t) by {
            let (tx, ty) = t;
            lemma_rays_disjoint(b, mover, x, y, 1, 1, -1, 1, tx as int, ty as int);
            lemma_rays_disjoint(b, mover, x, y, 1, -1, -1, 1, tx as int, ty as int);
            lemma_rays_disjoint(b, mover, x, y, -1, -1, -1, 1, tx as int, ty as int);
        }
        lemma_add_no_duplicates(moves@, part@);
        lemma_add_contains(moves@, part@);
    }
    moves.append(&mut part);
    moves
}

/// The rook moves of the side to move from `pos`: along its rank and file.
pub fn mv_rook(pos: Point<u8>, state: &BoardState) -> (r: Vec<(u8, u8)>)
    requires
        pos.x < 8,
        pos.y < 8,
    ensures
        r@.no_duplicates(),
        forall|tx: u8, ty: u8|
            #[trigger] r@.contains((tx, ty)) <==> rook_dest(
                state@.cells,
                state.player,
                pos.x as int,
                pos.y as int,
                tx as int,
                ty as int,
            ),
{
    let ghost b = state@.cells;
    let ghost mover = state.player;
    let ghost x = pos.x as int;
    let ghost y = pos.y as int;
    let mut moves: Vec<(u8, u8)> = Vec::new();
    let mut part = get_line_moves(&pos, Point::new(0, 1), state);
    proof {
        lemma_add_no_duplicates(moves@, part@);
        lemma_add_contains(moves@, part@);
    }
    moves.append(&mut part);
    let mut part = get_line_moves(&pos, Point::new(0, -1), state);
    proof {
        assert forall|t: (u8, u8)| #[trigger] moves@.contains(t) implies !part@.contains(t) by {
            let (tx, ty) = t;
            lemma_rays_disjoint(b, mover, x, y, 0, 1, 0, -1, tx as int, ty as int);
        }
        lemma_add_no_duplicates(moves@, part@);
        lemma_add_contains(moves@, part@);
    }
    moves.append(&mut part);
    let mut part = get_line_moves(&pos, Point::new(1, 0), state);
    proof {
        assert forall|t: (u8, u8)| #[trigger] moves@.contains(t) implies !part@.contains(t) by {
            let (tx, ty) = t;
            lemma_rays_disjoint(b, mover, x, y, 0, 1, 1, 0, tx as int, ty as int);
            lemma_rays_disjoint(b, mover, x, y, 0, -1, 1, 0, tx as int, ty as int);
        }
        lemma_add_no_duplicates(moves@, part@);
        lemma_add_contains(moves@, part@);
    }
    moves.append(&mut part);
    let mut part = get_line_moves(&pos, Point::new(-1, 0), state);
    proof {
        assert forall|t: (u8, u8)| #[trigger] moves@.contains(t) implies !part@.contains(t) by {
            let (tx, ty) = t;
            lemma_rays_disjoint(b, mover, x, y, 0, 1, -1, 0, tx as int, ty as int);
            lemma_rays_disjoint(b, mover, x, y, 0, -1, -1, 0, tx as int, ty as int);
            lemma_rays_disjoint(b, mover, x, y, 1, 0, -1, 0, tx as int, ty as int);
        }
        lemma_add_no_duplicates(moves@, part@);
        lemma_add_contains(moves@, part@);
    }
    moves.append(&mut part);
    moves
}

/// The queen moves of the side to move from `pos`: the rook's and the
/// bishop's together.
pub fn mv_queen(pos: Point<u8>, state: &BoardState) -> (r: Vec<(u8, u8)>)
    requires
        pos.x < 8,
        pos.y < 8,
    ensures
        r@.no_duplicates(),
        forall|tx: u8, ty: u8|
            #[trigger] r@.contains((tx, ty)) <==> queen_dest(
                state@.cells,
                state.player,
                pos.x as int,
                pos.y as int,
                tx as int,
                ty as int,
            ),
{
    let mut moves = mv_rook(Point::new(pos.x, pos.y), state);
    let mut diagonal = mv_bishop(Point::new(pos.x, pos.y), state);
    proof {
        assert forall|t: (u8, u8)| #[trigger] moves@.contains(t) implies !diagonal@.contains(t) by {
            let (tx, ty) = t;
            lemma_rays_disjoint(state@.cells, state.player, pos.x as int, pos.y as int, 0, 1, 1, 1, tx as int, ty as int);
            lemma_rays_disjoint(state@.cells, state.player, pos.x as int, pos.y as int, 0, 1, 1, -1, tx as int, ty as int);
            lemma_rays_disjoint(state@.cells, state.player, pos.x as int, pos.y as int, 0, 1, -1, -1, tx as int, ty as int);
            lemma_rays_disjoint(state@.cells, state.player, pos.x as int, pos.y as int, 0, 1, -1, 1, tx as int, ty as int);
            lemma_rays_disjoint(state@.cells, state.player, pos.x as int, pos.y as int, 0, -1, 1, 1, tx as int, ty as int);
            lemma_rays_disjoint(state@.cells, state.player, pos.x as int, pos.y as int, 0, -1, 1, -1, tx as int, ty as int);
            lemma_rays_disjoint(state@.cells, state.player, pos.x as int, pos.y as int, 0, -1, -1, -1, tx as int, ty as int);
            lemma_rays_disjoint(state@.cells, state.player, pos.x as int, pos.y as int, 0, -1, -1, 1, tx as int, ty as int);
            lemma_rays_disjoint(state@.cells, state.player, pos.x as int, pos.y as int, 1, 0, 1, 1, tx as int, ty as int);
            lemma_rays_disjoint(state@.cells, state.player, pos.x as int, pos.y as int, 1, 0, 1, -1, tx as int, ty as int);
            lemma_rays_disjoint(state@.cells, state.player, pos.x as int, pos.y as int, 1, 0, -1, -1, tx as int, ty as int);
            lemma_rays_disjoint(state@.cells, state.player, pos.x as int, pos.y as int, 1, 0, -1, 1, tx as int, ty as int);
            lemma_rays_disjoint(state@.cells, state.player, pos.x as int, pos.y as int, -1, 0, 1, 1, tx as int, ty as int);
            lemma_rays_disjoint(state@.cells, state.player, pos.x as int, pos.y as int, -1, 0, 1, -1, tx as int, ty as int);
            lemma_rays_disjoint(state@.cells, state.player, pos.x as int, pos.y as int, -1, 0, -1, -1, tx as int, ty as int);
            lemma_rays_disjoint(state@.cells, state.player, pos.x as int, pos.y as int, -1, 0, -1, 1, tx as int, ty as int);
        }
        lemma_add_no_duplicates(moves@, diagonal@);
        lemma_add_contains(moves@, diagonal@);
    }
    moves.append(&mut diagonal);
    moves
}

/// The pseudo-legal moves of the piece `ch` on `pos`, moving for the side to
/// move of `state`. Any symbol that is no piece has none.
pub fn get_piece_moves(ch: char, pos: Point<u8>, state: &BoardState) -> (r: Vec<(u8, u8)>)
    requires
        pos.x < 8,
        pos.y < 8,
    ensures
        all_on_board(r@),
        r@.no_duplicates(),
        forall|tx: u8, ty: u8|
            #[trigger] r@.contains((tx, ty)) <==> pseudo_dest(
                state@.cells,
                state.player,
                ch,
                pos.x as int,
                pos.y as int,
                tx as int,
                ty as int,
            ),
{
    let r = if ch == 'p' || ch == 'P' {
        mv_pawn(pos, state)
    } else if ch == 'r' || ch == 'R' {
        mv_rook(pos, state)
    } else if ch == 'n' || ch == 'N' {
        mv_knight(pos, state)
    } else if ch == 'b' || ch == 'B' {
        mv_bishop(pos, state)
    } else if ch == 'q' || ch == 'Q' {
        mv_queen(pos, state)
    } else if ch == 'k' || ch == 'K' {
        mv_king(pos, state)
    } else {
        Vec::new()
    };
    proof {
        assert forall|i: int| 0 <= i < r@.len() implies (#[trigger] r@[i]).0 < 8 && r@[i].1 < 8 by {
            let t = r@[i];
            assert(r@.contains(t));
            assert(pseudo_dest(state@.cells, state.player, ch, pos.x as int, pos.y as int, t.0 as int, t.1 as int));
            if line_dest(state@.cells, state.player, pos.x as int, pos.y as int, 0, 1, t.0 as int, t.1 as int) {}
        }
    }
    r
}

} // verus!
