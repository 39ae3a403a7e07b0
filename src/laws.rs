use vstd::prelude::*;

use crate::board::{cell, initial_symbol, on_board, well_formed, BoardState, Position};
use crate::game::next_position;
use crate::moves::{capturable, clear_path, direction, line_dest, pseudo_dest, ray_hit, shift, sq};
use crate::piece::{occupied, opponent, valid_symbol, Player, EMPTY};
use crate::rules::{
    after_move, attacks_king, ep_mask, in_check, lemma_in_check_frame, lemma_pseudo_on_board, legal_move,
    moved, takes_en_passant,
};

verus! {

/// A move that leaves the mover's own king attacked is not legal, even when
/// the piece's movement rules allow it.
pub proof fn lemma_self_check_excluded(p: Position, fx: int, fy: int, tx: int, ty: int)
    requires
        pseudo_dest(p.cells, p.player, p.at(fx, fy), fx, fy, tx, ty),
        in_check(after_move(p, fx, fy, tx, ty), p.player),
    ensures
        !legal_move(p, fx, fy, tx, ty),
{
}

/// A sliding piece whose ray from `(x, y)` in direction `(dx, dy)` first meets
/// a piece at step `k` reaches every empty square before it; reaches that
/// square exactly when it holds an opponent's piece; and reaches nothing
/// beyond it.
pub proof fn lemma_slide_blocked(
    b: Seq<char>,
    mover: Player,
    x: int,
    y: int,
    dx: int,
    dy: int,
    k: int,
)
    requires
        on_board(x, y),
        direction(dx, dy),
        1 <= k,
        on_board(shift(x, dx, k), shift(y, dy, k)),
        clear_path(b, x, y, dx, dy, k),
        occupied(sq(b, shift(x, dx, k), shift(y, dy, k))),
    ensures
        forall|j: int|
            1 <= j < k ==> #[trigger] line_dest(
                b,
                mover,
                x,
                y,
                dx,
                dy,
                shift(x, dx, j),
                shift(y, dy, j),
            ),
        line_dest(b, mover, x, y, dx, dy, shift(x, dx, k), shift(y, dy, k)) == opponent(
            mover,
            sq(b, shift(x, dx, k), shift(y, dy, k)),
        ),
        forall|j: int|
            j > k ==> !#[trigger] line_dest(
                b,
                mover,
                x,
                y,
                dx,
                dy,
                shift(x, dx, j),
                shift(y, dy, j),
            ),
{
    assert forall|j: int| 1 <= j < k implies #[trigger] line_dest(
        b,
        mover,
        x,
        y,
        dx,
        dy,
        shift(x, dx, j),
        shift(y, dy, j),
    ) by {
        assert(!occupied(sq(b, shift(x, dx, j), shift(y, dy, j))));
        assert(ray_hit(b, mover, x, y, dx, dy, j, shift(x, dx, j), shift(y, dy, j)));
    }
    let (tx, ty) = (shift(x, dx, k), shift(y, dy, k));
    if opponent(mover, sq(b, tx, ty)) {
        assert(ray_hit(b, mover, x, y, dx, dy, k, tx, ty));
    }
    if line_dest(b, mover, x, y, dx, dy, tx, ty) {
        let kk = choose|kk: int| #[trigger] ray_hit(b, mover, x, y, dx, dy, kk, tx, ty);
        if kk > k {
            assert(!occupied(sq(b, shift(x, dx, k), shift(y, dy, k))));
        }
    }
    assert forall|j: int| j > k implies !#[trigger] line_dest(
        b,
        mover,
        x,
        y,
        dx,
        dy,
        shift(x, dx, j),
        shift(y, dy, j),
    ) by {
        if line_dest(b, mover, x, y, dx, dy, shift(x, dx, j), shift(y, dy, j)) {
            let kk = choose|kk: int| #[trigger]
                ray_hit(b, mover, x, y, dx, dy, kk, shift(x, dx, j), shift(y, dy, j));
            assert(kk == j);
            assert(!occupied(sq(b, shift(x, dx, k), shift(y, dy, k))));
        }
    }
}

/// After a pawn's double step its side's en-passant bit marks the file it
/// left, and the other side's is clear; after any other move both are clear.
pub proof fn lemma_en_passant_flags(p: Position, fx: int, fy: int, tx: int, ty: int)
    requires
        0 <= fx < 8,
    ensures
        ({
            let q = after_move(p, fx, fy, tx, ty);
            let ch = p.at(fx, fy);
            &&& q.ep_white == (if ch == 'P' && fy == 6 && ty == 4 { ep_mask(fx) } else { 0 })
            &&& q.ep_black == (if ch == 'p' && fy == 1 && ty == 3 { ep_mask(fx) } else { 0 })
            &&& ep_mask(fx) != 0
        }),
{
    let f = fx as u8;
    assert(f < 8 ==> 0x80u8 >> f != 0) by (bit_vector);
}

/// Pseudo-legal moves never stay on their square.
pub proof fn lemma_pseudo_moves_away(
    b: Seq<char>,
    mover: Player,
    ch: char,
    x: int,
    y: int,
    tx: int,
    ty: int,
)
    requires
        pseudo_dest(b, mover, ch, x, y, tx, ty),
    ensures
        !(tx == x && ty == y),
{
}

/// After a legal move the destination holds the piece that moved, its origin
/// is empty, and a king's recorded square follows it.
pub proof fn lemma_round_trip(p: Position, fx: int, fy: int, tx: int, ty: int)
    requires
        p.cells.len() == 64,
        legal_move(p, fx, fy, tx, ty),
    ensures
        ({
            let q = after_move(p, fx, fy, tx, ty);
            &&& q.at(tx, ty) == p.at(fx, fy)
            &&& q.at(fx, fy) == EMPTY
            &&& p.at(fx, fy) == 'K' ==> q.white_king == (tx, ty)
            &&& p.at(fx, fy) == 'k' ==> q.black_king == (tx, ty)
        }),
{
    lemma_pseudo_moves_away(p.cells, p.player, p.at(fx, fy), fx, fy, tx, ty);
    lemma_pseudo_on_board(p.cells, p.player, p.at(fx, fy), fx, fy, tx, ty);
    let m = moved(p, fx, fy, tx, ty);
    assert(cell(tx, ty) != cell(fx, fy));
    if takes_en_passant(p, fx, fy, tx, ty) {
        assert(cell(tx, fy) != cell(tx, ty));
    }
    assert(m.at(tx, ty) == p.at(fx, fy));
}

/// Each move played through the turn controller hands the turn to the other
/// side.
pub proof fn lemma_turn_alternates(p: Position, fx: int, fy: int, tx: int, ty: int)
    ensures
        next_position(p, fx, fy, tx, ty).player == p.player.other(),
        next_position(p, fx, fy, tx, ty).player != p.player,
{
}

/// A position that play can reach: well formed, and the side that just
/// moved is not in check.
pub open spec fn playable(p: Position) -> bool {
    well_formed(p) && !in_check(p, p.player.other())
}

/// A pseudo-legal destination is empty or holds an opponent's piece.
pub proof fn lemma_pseudo_capturable(
    b: Seq<char>,
    mover: Player,
    ch: char,
    x: int,
    y: int,
    tx: int,
    ty: int,
)
    requires
        pseudo_dest(b, mover, ch, x, y, tx, ty),
    ensures
        capturable(b, mover, tx, ty),
{
}

/// A legal move from a playable position leads, once the turn has passed,
/// to a playable position: every square keeps a valid symbol and each side
/// keeps exactly one king, on the square recorded for it.
pub proof fn lemma_legal_move_keeps_invariant(p: Position, fx: int, fy: int, tx: int, ty: int)
    requires
        playable(p),
        legal_move(p, fx, fy, tx, ty),
    ensures
        playable(next_position(p, fx, fy, tx, ty)),
{
    let ch = p.at(fx, fy);
    let mover = p.player;
    let other = mover.other();
    lemma_pseudo_capturable(p.cells, mover, ch, fx, fy, tx, ty);
    lemma_pseudo_on_board(p.cells, mover, ch, fx, fy, tx, ty);
    lemma_pseudo_moves_away(p.cells, mover, ch, fx, fy, tx, ty);
    let (kx, ky) = p.king_of(other);
    if p.at(tx, ty) == p.at(kx, ky) {
        assert(kx == tx && ky == ty);
        assert(attacks_king(p, other, fx, fy));
    }
    assert(p.at(tx, ty) != 'K' && p.at(tx, ty) != 'k');
    let ep = takes_en_passant(p, fx, fy, tx, ty);
    let q = after_move(p, fx, fy, tx, ty);
    let n = next_position(p, fx, fy, tx, ty);
    lemma_in_check_frame(q, n, mover);
    assert(n.player.other() == mover);
    assert forall|x: int, y: int| on_board(x, y) implies #[trigger] n.at(x, y) == (if x == fx && y
        == fy {
        EMPTY
    } else if x == tx && y == ty {
        ch
    } else if ep && x == tx && y == fy {
        EMPTY
    } else {
        p.at(x, y)
    }) by {
        assert(0 <= cell(x, y) < 64);
        assert(cell(x, y) == cell(fx, fy) ==> x == fx && y == fy);
        assert(cell(x, y) == cell(tx, ty) ==> x == tx && y == ty);
        assert(cell(x, y) == cell(tx, fy) ==> x == tx && y == fy);
    }
    assert forall|x: int, y: int| on_board(x, y) implies valid_symbol(#[trigger] n.at(x, y)) by {
        assert(valid_symbol(p.at(x, y)));
    }
    let (wkx, wky) = n.white_king;
    assert forall|x2: int, y2: int| on_board(x2, y2) && #[trigger] n.at(x2, y2) == 'K' implies x2
        == wkx && y2 == wky by {
        assert(n.at(x2, y2) == 'K');
    }
    let (bkx, bky) = n.black_king;
    assert forall|x2: int, y2: int| on_board(x2, y2) && #[trigger] n.at(x2, y2) == 'k' implies x2
        == bkx && y2 == bky by {
        assert(n.at(x2, y2) == 'k');
    }
    assert(n.at(wkx, wky) == 'K');
    assert(n.at(bkx, bky) == 'k');
}

/// The starting position is playable: in particular Black, who does not
/// move first, is not in check.
pub proof fn lemma_initial_playable(s: BoardState)
    requires
        s.is_initial(),
    ensures
        playable(s@),
{
    let p = s@;
    assert forall|x: int, y: int| !#[trigger] attacks_king(p, Player::Black, x, y) by {
        if attacks_king(p, Player::Black, x, y) {
            assert(p.at(x, y) == initial_symbol(x, y));
            assert(y == 6 || y == 7);
        }
    }
}

} // verus!
