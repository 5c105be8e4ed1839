//! Engine-wide properties, stated once over the models and proved from the
//! definitions the public contracts use.

use vstd::prelude::*;

use crate::apply::apply_move;
use crate::apply::move_ok;
use crate::attack::attacked;
use crate::attack::in_check;
use crate::board::is_king_cell;
use crate::board::lemma_king_from_finds;
use crate::board::lemma_king_from_none;
use crate::board::lemma_king_from_sound;
use crate::board::pos_of_sq;
use crate::board::BoardModel;
use crate::game::checkmate_of;
use crate::game::game_move_ok;
use crate::game::stalemate_of;
use crate::game::KeyModel;
use crate::pieces::Color;
use crate::pieces::PieceType;
use crate::position::Position;

verus! {

/// Legality closure: a destination is in the legal-move set exactly when
/// `move_piece` accepts it, and applying such a move leaves the mover's own
/// king unattacked on the resulting board — the destination square when the
/// mover is the king itself, its recorded square otherwise.
pub proof fn lemma_legality_closure(m: BoardModel, from: Position, to: Position)
    requires
        m.wf(),
        move_ok(m, from, to),
    ensures
        ({
            let p = m.at_pos(from).unwrap();
            let m2 = apply_move(m, from, to, None);
            &&& (p.piece_type == PieceType::King ==> !attacked(
                m2,
                to.x as int,
                to.y as int,
                p.color.other(),
            ))
            &&& (p.piece_type != PieceType::King && m.king_sq(p.color) is Some ==> {
                let k = m.king_sq(p.color).unwrap();
                !attacked(m2, k.x as int, k.y as int, p.color.other())
            })
        }),
{
}

/// After a move the game layer accepts, the mover's side is not in check
/// on the resulting board, whatever promotion was chosen.
pub proof fn lemma_no_self_check(
    m: BoardModel,
    from: Position,
    to: Position,
    promo: Option<PieceType>,
)
    requires
        game_move_ok(m, from, to, promo),
    ensures
        !in_check(apply_move(m, from, to, promo), m.at_pos(from).unwrap().color),
{
}

/// Whether at most one square holds the king of `color`.
pub open spec fn at_most_one_king(m: BoardModel, color: Color) -> bool {
    forall|i: int, j: int|
        0 <= i < 64 && 0 <= j < 64 && is_king_cell(#[trigger] m.squares[i], color) && is_king_cell(
            #[trigger] m.squares[j],
            color,
        ) ==> i == j
}

/// Legality closure, at the board: on a board with at most one king of the
/// mover's color — the standing assumption of the data model — any move
/// that `move_piece` accepts leaves the mover's side out of check on the
/// board that results.
#[verifier::rlimit(100)]
#[verifier::spinoff_prover]
pub proof fn lemma_move_no_self_check(m: BoardModel, from: Position, to: Position)
    requires
        m.wf(),
        move_ok(m, from, to),
        at_most_one_king(m, m.at_pos(from).unwrap().color),
    ensures
        !in_check(apply_move(m, from, to, None), m.at_pos(from).unwrap().color),
{
    let p0 = m.at_pos(from).unwrap();
    let c = p0.color;
    let enemy = c.other();
    let m2 = apply_move(m, from, to, None);
    crate::apply::lemma_pseudo_legal_on_board(m, from, to);
    let fidx = from.y * 8 + from.x;
    let tidx = to.y * 8 + to.x;
    assert(pos_of_sq(tidx) == to && pos_of_sq(fidx) == from && 0 <= fidx < 64 && 0 <= tidx
        < 64) by (nonlinear_arith)
        requires
            0 <= from.x < 8,
            0 <= from.y < 8,
            0 <= to.x < 8,
            0 <= to.y < 8,
            fidx == from.y * 8 + from.x,
            tidx == to.y * 8 + to.x,
    ;
    assert(m2.squares.len() == 64);
    assert(m2.wf());
    if p0.piece_type == PieceType::King {
        // a king never promotes, so the piece placed on `to` is the king
        assert(is_king_cell(m2.squares[tidx], c));
        assert forall|j: int| 0 <= j < tidx implies !is_king_cell(
            #[trigger] m2.squares[j],
            c,
        ) by {
            if is_king_cell(m2.squares[j], c) {
                assert(is_king_cell(m.squares[j], c));
                assert(is_king_cell(m.squares[fidx], c));
                assert(j == fidx);
            }
        }
        lemma_king_from_finds(m2, c, 0, tidx);
        assert(m2.king_sq(c) == Some(to));
        assert(!attacked(m2, to.x as int, to.y as int, enemy));
    } else {
        match m.king_sq(c) {
            None => {
                lemma_king_from_none(m, c, 0);
                assert forall|j: int| 0 <= j < 64 implies !is_king_cell(
                    #[trigger] m2.squares[j],
                    c,
                ) by {
                    if is_king_cell(m2.squares[j], c) {
                        assert(is_king_cell(m.squares[j], c));
                    }
                }
                lemma_king_from_none(m2, c, 0);
                assert(m2.king_sq(c) is None);
            },
            Some(k) => {
                lemma_king_from_sound(m, c, 0);
                let kidx = k.y * 8 + k.x;
                assert(pos_of_sq(kidx) == k && 0 <= kidx < 64) by (nonlinear_arith)
                    requires
                        0 <= k.x < 8,
                        0 <= k.y < 8,
                        kidx == k.y * 8 + k.x,
                ;
                assert(is_king_cell(m.squares[kidx], c));
                assert(fidx != kidx);
                let ep_branch = p0.piece_type == PieceType::Pawn && m.en_passant == Some(to);
                let epidx = from.y * 8 + to.x;
                let survives = tidx != kidx && !(ep_branch && epidx == kidx);
                if survives {
                    assert(is_king_cell(m2.squares[kidx], c));
                    assert forall|j: int| 0 <= j < kidx implies !is_king_cell(
                        #[trigger] m2.squares[j],
                        c,
                    ) by {
                        if is_king_cell(m2.squares[j], c) {
                            assert(is_king_cell(m.squares[j], c));
                            assert(j == kidx);
                        }
                    }
                    lemma_king_from_finds(m2, c, 0, kidx);
                    assert(m2.king_sq(c) == Some(k));
                    assert(!attacked(m2, k.x as int, k.y as int, enemy));
                } else {
                    assert forall|j: int| 0 <= j < 64 implies !is_king_cell(
                        #[trigger] m2.squares[j],
                        c,
                    ) by {
                        if is_king_cell(m2.squares[j], c) {
                            assert(is_king_cell(m.squares[j], c));
                            assert(j == kidx);
                        }
                    }
                    lemma_king_from_none(m2, c, 0);
                    assert(m2.king_sq(c) is None);
                }
            },
        }
    }
}

/// Terminal-state exclusivity: checkmate implies check, and checkmate and
/// stalemate never hold of the same position and history.
pub proof fn lemma_terminal_exclusive(m: BoardModel, color: Color, hist: Seq<KeyModel>)
    ensures
        checkmate_of(m, color) ==> in_check(m, color),
        !(checkmate_of(m, color) && stalemate_of(m, color, hist)),
{
}

} // verus!
