//! The library's cross-cutting guarantees, stated and proved over the same
//! spec functions the public contracts use.
use vstd::prelude::*;

use crate::game::{spec_is_generated_move, spec_validate_move, Game};
use crate::moves::Move;

verus! {

/// Legality soundness: every move in the generated legal-move list of a
/// well-formed game applies to the board without leaving the mover's own
/// king in check.
pub proof fn lemma_generated_move_safe(g: Game, m: Move)
    requires
        g.wf(),
        g.possible_moves@.contains(m),
    ensures
        spec_validate_move(g.board, g.turn, g.history.moves@, m) is Ok,
        !g.board.spec_apply_move(m).spec_is_check(g.turn),
{
    assert(spec_is_generated_move(g.board, g.turn, g.history.moves@, m));
}

/// Conclusion correctness: a well-formed game is concluded exactly when its
/// generated legal-move list is empty, and concluded with a winner — the
/// side that just moved — exactly when the stuck side is also in check.
pub proof fn lemma_conclusion_correct(g: Game)
    requires
        g.wf(),
    ensures
        (g.result is Some) <==> g.possible_moves@.len() == 0,
        g.result matches Some(res) ==> res.winner == (if g.board.spec_is_check(g.turn) {
            Some(g.turn.spec_opposite())
        } else {
            None
        }),
        (g.possible_moves@.len() == 0 && g.board.spec_is_check(g.turn)) <==> (g.result matches Some(
            res,
        ) && res.winner is Some),
{
}

/// Idempotence: what `get_moves_from` returns is a pure function of the
/// game state and the queried square, so two successive calls with no
/// intervening `make_move` return identical move lists.
pub proof fn lemma_get_moves_from_idempotent(
    g: Game,
    col: i8,
    row: i8,
    r1: Seq<Move>,
    r2: Seq<Move>,
)
    requires
        r1 == g.possible_moves@.filter(|m: Move| m.from_col == col && m.from_row == row),
        r2 == g.possible_moves@.filter(|m: Move| m.from_col == col && m.from_row == row),
    ensures
        r1 == r2,
{
}

} // verus!
