//! Legal-move generation: per-square candidate enumeration filtered through
//! the legality oracle, so a caller never observes an illegal candidate.
//! Candidates over-approximate every piece's geometry (ray walks stopping at
//! the first occupied square, knight offsets, queen-promotion candidates);
//! `validate_move` is the single source of truth for what survives.
use vstd::prelude::*;

use crate::board::{Board, PieceColor, PieceType};
use crate::game::{spec_is_generated_move, spec_moves_sorted, spec_pawn_move_ok,
    spec_piece_geometry_ok, spec_promotion_field_ok, spec_validate_move, Game};
use crate::moves::Move;
use crate::pos::coord_in_bounds;

verus! {

/// Destinations strictly to the right of (fc, fr) on its rank, no promotion.
pub open spec fn spec_seg_right(fc: int, fr: int, m: Move) -> bool {
    &&& m.from_col == fc
    &&& m.from_row == fr
    &&& m.promotion_to is None
    &&& m.to_row == fr
    &&& m.to_col > fc
}

/// No move beyond an occupied square on the rank to the right survives
/// validation: sliders are blocked, other shapes never reach there, and a
/// kingside castle needs that square empty.
proof fn lemma_blocked_right(
    board: Board,
    turn: PieceColor,
    history: Seq<Move>,
    fc: int,
    fr: int,
    bc: int,
)
    requires
        coord_in_bounds(fc, fr),
        coord_in_bounds(bc, fr),
        fc < bc,
        board.spec_at(bc, fr).spec_is_occupied(),
    ensures
        forall|m: Move|
            spec_seg_right(fc, fr, m) && m.to_col > bc ==> !(spec_validate_move(
                board,
                turn,
                history,
                m,
            ) is Ok),
{
    assert forall|m: Move|
        spec_seg_right(fc, fr, m) && m.to_col > bc implies !(spec_validate_move(
        board,
        turn,
        history,
        m,
    ) is Ok) by {
        if spec_validate_move(board, turn, history, m) is Ok {
            let piece = board.spec_at(fc, fr).piece_type->Some_0;
            assert(board.spec_at(bc, m.from_row as int).spec_is_occupied());
            assert(board.spec_blocked_straight(m));
            match piece {
                PieceType::King => {
                    assert(board.spec_possible_castle(m) is None);
                },
                _ => {},
            }
        }
    }
}

/// Destinations strictly to the left of (fc, fr) on its rank, no promotion.
pub open spec fn spec_seg_left(fc: int, fr: int, m: Move) -> bool {
    &&& m.from_col == fc
    &&& m.from_row == fr
    &&& m.promotion_to is None
    &&& m.to_row == fr
    &&& m.to_col < fc
}

/// No move beyond an occupied square on the rank to the left survives
/// validation.
proof fn lemma_blocked_left(
    board: Board,
    turn: PieceColor,
    history: Seq<Move>,
    fc: int,
    fr: int,
    bc: int,
)
    requires
        coord_in_bounds(fc, fr),
        coord_in_bounds(bc, fr),
        bc < fc,
        board.spec_at(bc, fr).spec_is_occupied(),
    ensures
        forall|m: Move|
            spec_seg_left(fc, fr, m) && m.to_col < bc ==> !(spec_validate_move(
                board,
                turn,
                history,
                m,
            ) is Ok),
{
    assert forall|m: Move|
        spec_seg_left(fc, fr, m) && m.to_col < bc implies !(spec_validate_move(
        board,
        turn,
        history,
        m,
    ) is Ok) by {
        if spec_validate_move(board, turn, history, m) is Ok {
            let piece = board.spec_at(fc, fr).piece_type->Some_0;
            assert(board.spec_at(bc, m.from_row as int).spec_is_occupied());
            assert(board.spec_blocked_straight(m));
            match piece {
                PieceType::King => {
                    assert(board.spec_possible_castle(m) is None);
                },
                _ => {},
            }
        }
    }
}

/// Destinations strictly above (fc, fr) on its file, no promotion.
pub open spec fn spec_seg_up(fc: int, fr: int, m: Move) -> bool {
    &&& m.from_col == fc
    &&& m.from_row == fr
    &&& m.promotion_to is None
    &&& m.to_col == fc
    &&& m.to_row > fr
}

/// No move beyond an occupied square above on the file survives
/// validation (for a pawn, a blocked crossing square stops the two-step
/// advance).
proof fn lemma_blocked_up(
    board: Board,
    turn: PieceColor,
    history: Seq<Move>,
    fc: int,
    fr: int,
    br: int,
)
    requires
        coord_in_bounds(fc, fr),
        coord_in_bounds(fc, br),
        br > fr,
        board.spec_at(fc, br).spec_is_occupied(),
    ensures
        forall|m: Move|
            spec_seg_up(fc, fr, m) && m.to_row > br ==> !(spec_validate_move(
                board,
                turn,
                history,
                m,
            ) is Ok),
{
    assert forall|m: Move|
        spec_seg_up(fc, fr, m) && m.to_row > br implies !(spec_validate_move(
        board,
        turn,
        history,
        m,
    ) is Ok) by {
        if spec_validate_move(board, turn, history, m) is Ok {
            let piece = board.spec_at(fc, fr).piece_type->Some_0;
            assert(board.spec_at(m.from_col as int, br).spec_is_occupied());
            assert(board.spec_blocked_straight(m));
            match piece {
                PieceType::King => {
                    assert(board.spec_possible_castle(m) is None);
                },
                _ => {},
            }
        }
    }
}

/// Destinations strictly below (fc, fr) on its file, no promotion.
pub open spec fn spec_seg_down(fc: int, fr: int, m: Move) -> bool {
    &&& m.from_col == fc
    &&& m.from_row == fr
    &&& m.promotion_to is None
    &&& m.to_col == fc
    &&& m.to_row < fr
}

/// No move beyond an occupied square below on the file survives
/// validation.
proof fn lemma_blocked_down(
    board: Board,
    turn: PieceColor,
    history: Seq<Move>,
    fc: int,
    fr: int,
    br: int,
)
    requires
        coord_in_bounds(fc, fr),
        coord_in_bounds(fc, br),
        br < fr,
        board.spec_at(fc, br).spec_is_occupied(),
    ensures
        forall|m: Move|
            spec_seg_down(fc, fr, m) && m.to_row < br ==> !(spec_validate_move(
                board,
                turn,
                history,
                m,
            ) is Ok),
{
    assert forall|m: Move|
        spec_seg_down(fc, fr, m) && m.to_row < br implies !(spec_validate_move(
        board,
        turn,
        history,
        m,
    ) is Ok) by {
        if spec_validate_move(board, turn, history, m) is Ok {
            let piece = board.spec_at(fc, fr).piece_type->Some_0;
            assert(board.spec_at(m.from_col as int, br).spec_is_occupied());
            assert(board.spec_blocked_straight(m));
            match piece {
                PieceType::King => {
                    assert(board.spec_possible_castle(m) is None);
                },
                _ => {},
            }
        }
    }
}

/// Destinations on the up-right diagonal from (fc, fr), no promotion.
pub open spec fn spec_seg_up_right(fc: int, fr: int, m: Move) -> bool {
    &&& m.from_col == fc
    &&& m.from_row == fr
    &&& m.promotion_to is None
    &&& m.to_col - fc == m.to_row - fr
    &&& m.to_col > fc
}

/// No move beyond an occupied square on the up-right diagonal survives
/// validation.
proof fn lemma_blocked_up_right(
    board: Board,
    turn: PieceColor,
    history: Seq<Move>,
    fc: int,
    fr: int,
    s: int,
)
    requires
        coord_in_bounds(fc, fr),
        coord_in_bounds(fc + s, fr + s),
        s >= 1,
        board.spec_at(fc + s, fr + s).spec_is_occupied(),
    ensures
        forall|m: Move|
            spec_seg_up_right(fc, fr, m) && m.to_col > fc + s ==> !(spec_validate_move(
                board,
                turn,
                history,
                m,
            ) is Ok),
{
    assert forall|m: Move|
        spec_seg_up_right(fc, fr, m) && m.to_col > fc + s implies !(spec_validate_move(
        board,
        turn,
        history,
        m,
    ) is Ok) by {
        if spec_validate_move(board, turn, history, m) is Ok {
            let piece = board.spec_at(fc, fr).piece_type->Some_0;
            assert(s * 1 == s && s * (-1) == -s) by (nonlinear_arith);
            assert(board.spec_occupied_on_diagonal(m, s));
            assert(board.spec_blocked_diagonal(m));
            match piece {
                PieceType::King => {
                    assert(board.spec_possible_castle(m) is None);
                },
                _ => {},
            }
        }
    }
}

/// Destinations on the up-left diagonal from (fc, fr), no promotion.
pub open spec fn spec_seg_up_left(fc: int, fr: int, m: Move) -> bool {
    &&& m.from_col == fc
    &&& m.from_row == fr
    &&& m.promotion_to is None
    &&& fc - m.to_col == m.to_row - fr
    &&& m.to_col < fc
}

/// No move beyond an occupied square on the up-left diagonal survives
/// validation.
proof fn lemma_blocked_up_left(
    board: Board,
    turn: PieceColor,
    history: Seq<Move>,
    fc: int,
    fr: int,
    s: int,
)
    requires
        coord_in_bounds(fc, fr),
        coord_in_bounds(fc - s, fr + s),
        s >= 1,
        board.spec_at(fc - s, fr + s).spec_is_occupied(),
    ensures
        forall|m: Move|
            spec_seg_up_left(fc, fr, m) && m.to_col < fc - s ==> !(spec_validate_move(
                board,
                turn,
                history,
                m,
            ) is Ok),
{
    assert forall|m: Move|
        spec_seg_up_left(fc, fr, m) && m.to_col < fc - s implies !(spec_validate_move(
        board,
        turn,
        history,
        m,
    ) is Ok) by {
        if spec_validate_move(board, turn, history, m) is Ok {
            let piece = board.spec_at(fc, fr).piece_type->Some_0;
            assert(s * 1 == s && s * (-1) == -s) by (nonlinear_arith);
            assert(board.spec_occupied_on_diagonal(m, s));
            assert(board.spec_blocked_diagonal(m));
            match piece {
                PieceType::King => {
                    assert(board.spec_possible_castle(m) is None);
                },
                _ => {},
            }
        }
    }
}

/// Destinations on the down-right diagonal from (fc, fr), no promotion.
pub open spec fn spec_seg_down_right(fc: int, fr: int, m: Move) -> bool {
    &&& m.from_col == fc
    &&& m.from_row == fr
    &&& m.promotion_to is None
    &&& m.to_col - fc == fr - m.to_row
    &&& m.to_col > fc
}

/// No move beyond an occupied square on the down-right diagonal survives
/// validation.
proof fn lemma_blocked_down_right(
    board: Board,
    turn: PieceColor,
    history: Seq<Move>,
    fc: int,
    fr: int,
    s: int,
)
    requires
        coord_in_bounds(fc, fr),
        coord_in_bounds(fc + s, fr - s),
        s >= 1,
        board.spec_at(fc + s, fr - s).spec_is_occupied(),
    ensures
        forall|m: Move|
            spec_seg_down_right(fc, fr, m) && m.to_col > fc + s ==> !(spec_validate_move(
                board,
                turn,
                history,
                m,
            ) is Ok),
{
    assert forall|m: Move|
        spec_seg_down_right(fc, fr, m) && m.to_col > fc + s implies !(spec_validate_move(
        board,
        turn,
        history,
        m,
    ) is Ok) by {
        if spec_validate_move(board, turn, history, m) is Ok {
            let piece = board.spec_at(fc, fr).piece_type->Some_0;
            assert(s * 1 == s && s * (-1) == -s) by (nonlinear_arith);
            assert(board.spec_occupied_on_diagonal(m, s));
            assert(board.spec_blocked_diagonal(m));
            match piece {
                PieceType::King => {
                    assert(board.spec_possible_castle(m) is None);
                },
                _ => {},
            }
        }
    }
}

/// Destinations on the down-left diagonal from (fc, fr), no promotion.
pub open spec fn spec_seg_down_left(fc: int, fr: int, m: Move) -> bool {
    &&& m.from_col == fc
    &&& m.from_row == fr
    &&& m.promotion_to is None
    &&& fc - m.to_col == fr - m.to_row
    &&& m.to_col < fc
}

/// No move beyond an occupied square on the down-left diagonal survives
/// validation.
proof fn lemma_blocked_down_left(
    board: Board,
    turn: PieceColor,
    history: Seq<Move>,
    fc: int,
    fr: int,
    s: int,
)
    requires
        coord_in_bounds(fc, fr),
        coord_in_bounds(fc - s, fr - s),
        s >= 1,
        board.spec_at(fc - s, fr - s).spec_is_occupied(),
    ensures
        forall|m: Move|
            spec_seg_down_left(fc, fr, m) && m.to_col < fc - s ==> !(spec_validate_move(
                board,
                turn,
                history,
                m,
            ) is Ok),
{
    assert forall|m: Move|
        spec_seg_down_left(fc, fr, m) && m.to_col < fc - s implies !(spec_validate_move(
        board,
        turn,
        history,
        m,
    ) is Ok) by {
        if spec_validate_move(board, turn, history, m) is Ok {
            let piece = board.spec_at(fc, fr).piece_type->Some_0;
            assert(s * 1 == s && s * (-1) == -s) by (nonlinear_arith);
            assert(board.spec_occupied_on_diagonal(m, s));
            assert(board.spec_blocked_diagonal(m));
            match piece {
                PieceType::King => {
                    assert(board.spec_possible_castle(m) is None);
                },
                _ => {},
            }
        }
    }
}



/// Indexes the eight knight offsets; anything else maps to 8.
pub open spec fn spec_knight_delta_index(dc: int, dr: int) -> int {
    if dc == 2 && dr == 1 {
        0
    } else if dc == 2 && dr == -1 {
        1
    } else if dc == -2 && dr == 1 {
        2
    } else if dc == -2 && dr == -1 {
        3
    } else if dc == 1 && dr == 2 {
        4
    } else if dc == 1 && dr == -2 {
        5
    } else if dc == -1 && dr == 2 {
        6
    } else if dc == -1 && dr == -2 {
        7
    } else {
        8
    }
}

/// Knight-shaped destinations from (fc, fr), no promotion.
pub open spec fn spec_knight_dom(fc: int, fr: int, m: Move) -> bool {
    &&& m.from_col == fc
    &&& m.from_row == fr
    &&& m.promotion_to is None
    &&& m.spec_is_knight_move()
}

/// Promotion-carrying moves from (fc, fr).
pub open spec fn spec_promo_dom(fc: int, fr: int, m: Move) -> bool {
    &&& m.from_col == fc
    &&& m.from_row == fr
    &&& m.promotion_to is Some
}

/// Every legal move the generator may yield from one square falls in
/// exactly one candidate family: a ray segment, a knight jump, or a
/// promotion.
proof fn lemma_generated_move_shape(
    board: Board,
    turn: PieceColor,
    history: Seq<Move>,
    fc: int,
    fr: int,
    m: Move,
)
    requires
        spec_is_generated_move(board, turn, history, m),
        m.from_col == fc,
        m.from_row == fr,
    ensures
        spec_seg_right(fc, fr, m) || spec_seg_left(fc, fr, m) || spec_seg_up(fc, fr, m)
            || spec_seg_down(fc, fr, m) || spec_seg_up_right(fc, fr, m) || spec_seg_up_left(
            fc,
            fr,
            m,
        ) || spec_seg_down_right(fc, fr, m) || spec_seg_down_left(fc, fr, m) || spec_knight_dom(
            fc,
            fr,
            m,
        ) || spec_promo_dom(fc, fr, m),
{
    if m.promotion_to is Some {
        assert(spec_promo_dom(fc, fr, m));
    } else {
        let piece = board.spec_at(fc, fr).piece_type->Some_0;
        assert(spec_piece_geometry_ok(board, turn, history, piece, m));
        match piece {
            PieceType::Pawn => {
                assert(m.spec_is_pawn_move(turn) || m.spec_is_pawn_capture(turn));
            },
            PieceType::Bishop => {
                assert(m.spec_is_diagonal());
            },
            PieceType::Knight => {
                assert(spec_knight_dom(fc, fr, m));
            },
            PieceType::Rook => {
                assert(m.spec_is_straight());
            },
            PieceType::Queen => {
                assert(m.spec_is_straight() || m.spec_is_diagonal());
            },
            PieceType::King => {
                if m.spec_is_regular_king_move() {
                } else {
                    assert(board.spec_possible_castle(m) is Some);
                    assert(m.to_row == m.from_row);
                }
            },
        }
    }
}

impl Game {
    /// Appends `mv` exactly when the oracle accepts it.
    fn push_if_valid(&self, mv: Move, out: &mut Vec<Move>)
        requires
            self.is_check == self.board.spec_is_check(self.turn),
            mv.promotion_to is None || mv.promotion_to == Some(PieceType::Queen),
        ensures
            spec_is_generated_move(self.board, self.turn, self.history.moves@, mv) ==> final(out)@ == old(out)@.push(mv),
            !spec_is_generated_move(self.board, self.turn, self.history.moves@, mv) ==> final(out)@ == old(out)@,
            final(out)@.len() >= old(out)@.len(),
            forall|i: int| 0 <= i < old(out)@.len() ==> final(out)@[i] == old(out)@[i],
            forall|i: int| old(out)@.len() <= i < final(out)@.len() ==> final(out)@[i] == mv,
            spec_is_generated_move(self.board, self.turn, self.history.moves@, mv) ==> final(
                out
            )@.contains(mv),
            forall|m: Move| old(out)@.contains(m) ==> final(out)@.contains(m),
    {
        let ghost orig = out@;
        if self.validate_move(&mv).is_ok() {
            out.push(mv);
            proof {
                assert(out@[out@.len() - 1] == mv);
            }
        }
        proof {
            assert forall|m: Move| orig.contains(m) implies out@.contains(m) by {
                let w = choose|w: int| 0 <= w < orig.len() && orig[w] == m;
                assert(out@[w] == m);
            }
        }
    }

    /// Walks right along the rank, offering each square up to and including
    /// the first occupied one.
    fn slide_right(&self, from_col: i8, from_row: i8, out: &mut Vec<Move>)
        requires
            self.is_check == self.board.spec_is_check(self.turn),
            coord_in_bounds(from_col as int, from_row as int),
        ensures
            final(out)@.len() >= old(out)@.len(),
            forall|i: int| 0 <= i < old(out)@.len() ==> final(out)@[i] == old(out)@[i],
            forall|i: int|
                old(out)@.len() <= i < final(out)@.len() ==> spec_seg_right(
                    from_col as int,
                    from_row as int,
                    #[trigger] final(out)@[i],
                ) && spec_is_generated_move(
                    self.board,
                    self.turn,
                    self.history.moves@,
                    final(out)@[i],
                ),
            forall|i: int, j: int|
                old(out)@.len() <= i < j < final(out)@.len() ==> (#[trigger] final(out)@[i]).to_col
                    != (#[trigger] final(out)@[j]).to_col,
            forall|m: Move|
                spec_seg_right(from_col as int, from_row as int, m) && spec_is_generated_move(
                    self.board,
                    self.turn,
                    self.history.moves@,
                    m,
                ) ==> final(out)@.contains(m),
    {
        let ghost orig = out@;
        let mut col: i8 = from_col + 1;
        let mut stopped = false;
        while col < 8 && !stopped
            invariant
                self.is_check == self.board.spec_is_check(self.turn),
                coord_in_bounds(from_col as int, from_row as int),
                from_col < col <= 8,
                out@.len() >= orig.len(),
                forall|i: int| 0 <= i < orig.len() ==> out@[i] == orig[i],
                forall|i: int|
                    orig.len() <= i < out@.len() ==> spec_seg_right(
                        from_col as int,
                        from_row as int,
                        #[trigger] out@[i],
                    ) && spec_is_generated_move(
                        self.board,
                        self.turn,
                        self.history.moves@,
                        out@[i],
                    ) && out@[i].to_col < col,
                forall|i: int, j: int|
                    orig.len() <= i < j < out@.len() ==> (#[trigger] out@[i]).to_col != (
                    #[trigger] out@[j]).to_col,
                forall|m: Move|
                    spec_seg_right(from_col as int, from_row as int, m) && spec_is_generated_move(
                        self.board,
                        self.turn,
                        self.history.moves@,
                        m,
                    ) && m.to_col < col ==> out@.contains(m),
                stopped ==> forall|m: Move|
                    spec_seg_right(from_col as int, from_row as int, m) && spec_is_generated_move(
                        self.board,
                        self.turn,
                        self.history.moves@,
                        m,
                    ) ==> m.to_col < col,
            decreases 8 - col,
        {
            let mv = Move::new(from_col, from_row, col, from_row);
            let ghost pre = out@;
            self.push_if_valid(mv, out);
            proof {
                if spec_is_generated_move(self.board, self.turn, self.history.moves@, mv) {
                    assert(out@[out@.len() - 1] == mv);
                    assert(out@.contains(mv));
                }
                assert forall|m: Move|
                    spec_seg_right(from_col as int, from_row as int, m) && spec_is_generated_move(
                        self.board,
                        self.turn,
                        self.history.moves@,
                        m,
                    ) && m.to_col < col + 1 implies out@.contains(m) by {
                    if m.to_col == col {
                        assert(m == mv);
                    } else {
                        assert(pre.contains(m));
                        let i = choose|i: int| 0 <= i < pre.len() && pre[i] == m;
                        assert(out@[i] == m);
                    }
                }
            }
            if self.board.at(col, from_row).is_occupied() {
                stopped = true;
                proof {
                    lemma_blocked_right(
                        self.board,
                        self.turn,
                        self.history.moves@,
                        from_col as int,
                        from_row as int,
                        col as int,
                    );
                }
            }
            col = col + 1;
        }
        proof {
            assert forall|m: Move|
                spec_seg_right(from_col as int, from_row as int, m) && spec_is_generated_move(
                    self.board,
                    self.turn,
                    self.history.moves@,
                    m,
                ) implies out@.contains(m) by {
                assert(m.spec_in_bounds());
                assert(m.to_col < col);
            }
        }
    }
}

impl Game {
    /// Walks left along the rank, offering each square up to and including
    /// the first occupied one.
    fn slide_left(&self, from_col: i8, from_row: i8, out: &mut Vec<Move>)
        requires
            self.is_check == self.board.spec_is_check(self.turn),
            coord_in_bounds(from_col as int, from_row as int),
        ensures
            final(out)@.len() >= old(out)@.len(),
            forall|i: int| 0 <= i < old(out)@.len() ==> final(out)@[i] == old(out)@[i],
            forall|i: int|
                old(out)@.len() <= i < final(out)@.len() ==> spec_seg_left(
                    from_col as int,
                    from_row as int,
                    #[trigger] final(out)@[i],
                ) && spec_is_generated_move(
                    self.board,
                    self.turn,
                    self.history.moves@,
                    final(out)@[i],
                ),
            forall|i: int, j: int|
                old(out)@.len() <= i < j < final(out)@.len() ==> (#[trigger] final(out)@[i]).to_col
                    != (#[trigger] final(out)@[j]).to_col || (final(out)@[i]).to_row != (final(
                    out
                ))@[j].to_row,
            forall|m: Move|
                spec_seg_left(from_col as int, from_row as int, m) && spec_is_generated_move(
                    self.board,
                    self.turn,
                    self.history.moves@,
                    m,
                ) ==> final(out)@.contains(m),
    {
        let ghost orig = out@;
        let mut col: i8 = from_col - 1;
        let mut stopped = false;
        while col >= 0 && !stopped
            invariant
                self.is_check == self.board.spec_is_check(self.turn),
                coord_in_bounds(from_col as int, from_row as int),
                -1 <= col < from_col,
                out@.len() >= orig.len(),
                forall|i: int| 0 <= i < orig.len() ==> out@[i] == orig[i],
                forall|i: int|
                    orig.len() <= i < out@.len() ==> spec_seg_left(
                        from_col as int,
                        from_row as int,
                        #[trigger] out@[i],
                    ) && spec_is_generated_move(
                        self.board,
                        self.turn,
                        self.history.moves@,
                        out@[i],
                    ) && ({
                        let q = out@[i];
                        q.to_col > col
                    }),
                forall|i: int, j: int|
                    orig.len() <= i < j < out@.len() ==> (#[trigger] out@[i]).to_col != (
                    #[trigger] out@[j]).to_col || (out@[i]).to_row != (out@[j]).to_row,
                forall|m: Move|
                    spec_seg_left(from_col as int, from_row as int, m) && spec_is_generated_move(
                        self.board,
                        self.turn,
                        self.history.moves@,
                        m,
                    ) && ({
                        let q = m;
                        q.to_col > col
                    }) ==> out@.contains(m),
                stopped ==> forall|m: Move|
                    spec_seg_left(from_col as int, from_row as int, m) && spec_is_generated_move(
                        self.board,
                        self.turn,
                        self.history.moves@,
                        m,
                    ) ==> ({
                        let q = m;
                        q.to_col > col
                    }),
            decreases col + 1,
        {
            let cand_col = col;
            let cand_row = from_row;
            let mv = Move::new(from_col, from_row, cand_col, cand_row);
            let ghost pre = out@;
            self.push_if_valid(mv, out);
            proof {
                if spec_is_generated_move(self.board, self.turn, self.history.moves@, mv) {
                    assert(out@[out@.len() - 1] == mv);
                    assert(out@.contains(mv));
                }
                assert forall|m: Move|
                    spec_seg_left(from_col as int, from_row as int, m) && spec_is_generated_move(
                        self.board,
                        self.turn,
                        self.history.moves@,
                        m,
                    ) && ({
                        let q = m;
                        q.to_col > col - 1
                    }) implies out@.contains(m) by {
                    if m.to_col == col {
                        assert(m == mv);
                    } else {
                        assert(pre.contains(m));
                        let w = choose|w: int| 0 <= w < pre.len() && pre[w] == m;
                        assert(out@[w] == m);
                    }
                }
            }
            if self.board.at(cand_col, cand_row).is_occupied() {
                stopped = true;
                proof {
                    lemma_blocked_left(
                        self.board,
                        self.turn,
                        self.history.moves@,
                        from_col as int,
                        from_row as int,
                        col as int,
                    );
                }
            }
            col = col - 1;
        }
        proof {
            assert forall|m: Move|
                spec_seg_left(from_col as int, from_row as int, m) && spec_is_generated_move(
                        self.board,
                        self.turn,
                        self.history.moves@,
                        m,
                    ) implies out@.contains(m) by {
                assert(m.spec_in_bounds());
                assert(m.to_col > col);
            }
        }
    }

    /// Walks up the file, offering each square up to and including the
    /// first occupied one.
    fn slide_up(&self, from_col: i8, from_row: i8, out: &mut Vec<Move>)
        requires
            self.is_check == self.board.spec_is_check(self.turn),
            coord_in_bounds(from_col as int, from_row as int),
        ensures
            final(out)@.len() >= old(out)@.len(),
            forall|i: int| 0 <= i < old(out)@.len() ==> final(out)@[i] == old(out)@[i],
            forall|i: int|
                old(out)@.len() <= i < final(out)@.len() ==> spec_seg_up(
                    from_col as int,
                    from_row as int,
                    #[trigger] final(out)@[i],
                ) && spec_is_generated_move(
                    self.board,
                    self.turn,
                    self.history.moves@,
                    final(out)@[i],
                ),
            forall|i: int, j: int|
                old(out)@.len() <= i < j < final(out)@.len() ==> (#[trigger] final(out)@[i]).to_col
                    != (#[trigger] final(out)@[j]).to_col || (final(out)@[i]).to_row != (final(
                    out
                ))@[j].to_row,
            forall|m: Move|
                spec_seg_up(from_col as int, from_row as int, m) && spec_is_generated_move(
                    self.board,
                    self.turn,
                    self.history.moves@,
                    m,
                ) ==> final(out)@.contains(m),
    {
        let ghost orig = out@;
        let mut row: i8 = from_row + 1;
        let mut stopped = false;
        while row < 8 && !stopped
            invariant
                self.is_check == self.board.spec_is_check(self.turn),
                coord_in_bounds(from_col as int, from_row as int),
                from_row < row <= 8,
                out@.len() >= orig.len(),
                forall|i: int| 0 <= i < orig.len() ==> out@[i] == orig[i],
                forall|i: int|
                    orig.len() <= i < out@.len() ==> spec_seg_up(
                        from_col as int,
                        from_row as int,
                        #[trigger] out@[i],
                    ) && spec_is_generated_move(
                        self.board,
                        self.turn,
                        self.history.moves@,
                        out@[i],
                    ) && ({
                        let q = out@[i];
                        q.to_row < row
                    }),
                forall|i: int, j: int|
                    orig.len() <= i < j < out@.len() ==> (#[trigger] out@[i]).to_col != (
                    #[trigger] out@[j]).to_col || (out@[i]).to_row != (out@[j]).to_row,
                forall|m: Move|
                    spec_seg_up(from_col as int, from_row as int, m) && spec_is_generated_move(
                        self.board,
                        self.turn,
                        self.history.moves@,
                        m,
                    ) && ({
                        let q = m;
                        q.to_row < row
                    }) ==> out@.contains(m),
                stopped ==> forall|m: Move|
                    spec_seg_up(from_col as int, from_row as int, m) && spec_is_generated_move(
                        self.board,
                        self.turn,
                        self.history.moves@,
                        m,
                    ) ==> ({
                        let q = m;
                        q.to_row < row
                    }),
            decreases 8 - row,
        {
            let cand_col = from_col;
            let cand_row = row;
            let mv = Move::new(from_col, from_row, cand_col, cand_row);
            let ghost pre = out@;
            self.push_if_valid(mv, out);
            proof {
                if spec_is_generated_move(self.board, self.turn, self.history.moves@, mv) {
                    assert(out@[out@.len() - 1] == mv);
                    assert(out@.contains(mv));
                }
                assert forall|m: Move|
                    spec_seg_up(from_col as int, from_row as int, m) && spec_is_generated_move(
                        self.board,
                        self.turn,
                        self.history.moves@,
                        m,
                    ) && ({
                        let q = m;
                        q.to_row < row + 1
                    }) implies out@.contains(m) by {
                    if m.to_row == row {
                        assert(m == mv);
                    } else {
                        assert(pre.contains(m));
                        let w = choose|w: int| 0 <= w < pre.len() && pre[w] == m;
                        assert(out@[w] == m);
                    }
                }
            }
            if self.board.at(cand_col, cand_row).is_occupied() {
                stopped = true;
                proof {
                    lemma_blocked_up(
                        self.board,
                        self.turn,
                        self.history.moves@,
                        from_col as int,
                        from_row as int,
                        row as int,
                    );
                }
            }
            row = row + 1;
        }
        proof {
            assert forall|m: Move|
                spec_seg_up(from_col as int, from_row as int, m) && spec_is_generated_move(
                        self.board,
                        self.turn,
                        self.history.moves@,
                        m,
                    ) implies out@.contains(m) by {
                assert(m.spec_in_bounds());
                assert(m.to_row < row);
            }
        }
    }

    /// Walks down the file, offering each square up to and including the
    /// first occupied one.
    fn slide_down(&self, from_col: i8, from_row: i8, out: &mut Vec<Move>)
        requires
            self.is_check == self.board.spec_is_check(self.turn),
            coord_in_bounds(from_col as int, from_row as int),
        ensures
            final(out)@.len() >= old(out)@.len(),
            forall|i: int| 0 <= i < old(out)@.len() ==> final(out)@[i] == old(out)@[i],
            forall|i: int|
                old(out)@.len() <= i < final(out)@.len() ==> spec_seg_down(
                    from_col as int,
                    from_row as int,
                    #[trigger] final(out)@[i],
                ) && spec_is_generated_move(
                    self.board,
                    self.turn,
                    self.history.moves@,
                    final(out)@[i],
                ),
            forall|i: int, j: int|
                old(out)@.len() <= i < j < final(out)@.len() ==> (#[trigger] final(out)@[i]).to_col
                    != (#[trigger] final(out)@[j]).to_col || (final(out)@[i]).to_row != (final(
                    out
                ))@[j].to_row,
            forall|m: Move|
                spec_seg_down(from_col as int, from_row as int, m) && spec_is_generated_move(
                    self.board,
                    self.turn,
                    self.history.moves@,
                    m,
                ) ==> final(out)@.contains(m),
    {
        let ghost orig = out@;
        let mut row: i8 = from_row - 1;
        let mut stopped = false;
        while row >= 0 && !stopped
            invariant
                self.is_check == self.board.spec_is_check(self.turn),
                coord_in_bounds(from_col as int, from_row as int),
                -1 <= row < from_row,
                out@.len() >= orig.len(),
                forall|i: int| 0 <= i < orig.len() ==> out@[i] == orig[i],
                forall|i: int|
                    orig.len() <= i < out@.len() ==> spec_seg_down(
                        from_col as int,
                        from_row as int,
                        #[trigger] out@[i],
                    ) && spec_is_generated_move(
                        self.board,
                        self.turn,
                        self.history.moves@,
                        out@[i],
                    ) && ({
                        let q = out@[i];
                        q.to_row > row
                    }),
                forall|i: int, j: int|
                    orig.len() <= i < j < out@.len() ==> (#[trigger] out@[i]).to_col != (
                    #[trigger] out@[j]).to_col || (out@[i]).to_row != (out@[j]).to_row,
                forall|m: Move|
                    spec_seg_down(from_col as int, from_row as int, m) && spec_is_generated_move(
                        self.board,
                        self.turn,
                        self.history.moves@,
                        m,
                    ) && ({
                        let q = m;
                        q.to_row > row
                    }) ==> out@.contains(m),
                stopped ==> forall|m: Move|
                    spec_seg_down(from_col as int, from_row as int, m) && spec_is_generated_move(
                        self.board,
                        self.turn,
                        self.history.moves@,
                        m,
                    ) ==> ({
                        let q = m;
                        q.to_row > row
                    }),
            decreases row + 1,
        {
            let cand_col = from_col;
            let cand_row = row;
            let mv = Move::new(from_col, from_row, cand_col, cand_row);
            let ghost pre = out@;
            self.push_if_valid(mv, out);
            proof {
                if spec_is_generated_move(self.board, self.turn, self.history.moves@, mv) {
                    assert(out@[out@.len() - 1] == mv);
                    assert(out@.contains(mv));
                }
                assert forall|m: Move|
                    spec_seg_down(from_col as int, from_row as int, m) && spec_is_generated_move(
                        self.board,
                        self.turn,
                        self.history.moves@,
                        m,
                    ) && ({
                        let q = m;
                        q.to_row > row - 1
                    }) implies out@.contains(m) by {
                    if m.to_row == row {
                        assert(m == mv);
                    } else {
                        assert(pre.contains(m));
                        let w = choose|w: int| 0 <= w < pre.len() && pre[w] == m;
                        assert(out@[w] == m);
                    }
                }
            }
            if self.board.at(cand_col, cand_row).is_occupied() {
                stopped = true;
                proof {
                    lemma_blocked_down(
                        self.board,
                        self.turn,
                        self.history.moves@,
                        from_col as int,
                        from_row as int,
                        row as int,
                    );
                }
            }
            row = row - 1;
        }
        proof {
            assert forall|m: Move|
                spec_seg_down(from_col as int, from_row as int, m) && spec_is_generated_move(
                        self.board,
                        self.turn,
                        self.history.moves@,
                        m,
                    ) implies out@.contains(m) by {
                assert(m.spec_in_bounds());
                assert(m.to_row > row);
            }
        }
    }

    /// Walks the up-right diagonal, offering each square up to and
    /// including the first occupied one.
    fn slide_up_right(&self, from_col: i8, from_row: i8, out: &mut Vec<Move>)
        requires
            self.is_check == self.board.spec_is_check(self.turn),
            coord_in_bounds(from_col as int, from_row as int),
        ensures
            final(out)@.len() >= old(out)@.len(),
            forall|i: int| 0 <= i < old(out)@.len() ==> final(out)@[i] == old(out)@[i],
            forall|i: int|
                old(out)@.len() <= i < final(out)@.len() ==> spec_seg_up_right(
                    from_col as int,
                    from_row as int,
                    #[trigger] final(out)@[i],
                ) && spec_is_generated_move(
                    self.board,
                    self.turn,
                    self.history.moves@,
                    final(out)@[i],
                ),
            forall|i: int, j: int|
                old(out)@.len() <= i < j < final(out)@.len() ==> (#[trigger] final(out)@[i]).to_col
                    != (#[trigger] final(out)@[j]).to_col || (final(out)@[i]).to_row != (final(
                    out
                ))@[j].to_row,
            forall|m: Move|
                spec_seg_up_right(from_col as int, from_row as int, m) && spec_is_generated_move(
                    self.board,
                    self.turn,
                    self.history.moves@,
                    m,
                ) ==> final(out)@.contains(m),
    {
        let ghost orig = out@;
        let mut step: i8 = 1;
        let mut stopped = false;
        while from_col + step < 8 && from_row + step < 8 && !stopped
            invariant
                self.is_check == self.board.spec_is_check(self.turn),
                coord_in_bounds(from_col as int, from_row as int),
                1 <= step <= 8,
                out@.len() >= orig.len(),
                forall|i: int| 0 <= i < orig.len() ==> out@[i] == orig[i],
                forall|i: int|
                    orig.len() <= i < out@.len() ==> spec_seg_up_right(
                        from_col as int,
                        from_row as int,
                        #[trigger] out@[i],
                    ) && spec_is_generated_move(
                        self.board,
                        self.turn,
                        self.history.moves@,
                        out@[i],
                    ) && ({
                        let q = out@[i];
                        q.to_col < from_col + step
                    }),
                forall|i: int, j: int|
                    orig.len() <= i < j < out@.len() ==> (#[trigger] out@[i]).to_col != (
                    #[trigger] out@[j]).to_col || (out@[i]).to_row != (out@[j]).to_row,
                forall|m: Move|
                    spec_seg_up_right(from_col as int, from_row as int, m) && spec_is_generated_move(
                        self.board,
                        self.turn,
                        self.history.moves@,
                        m,
                    ) && ({
                        let q = m;
                        q.to_col < from_col + step
                    }) ==> out@.contains(m),
                stopped ==> forall|m: Move|
                    spec_seg_up_right(from_col as int, from_row as int, m) && spec_is_generated_move(
                        self.board,
                        self.turn,
                        self.history.moves@,
                        m,
                    ) ==> ({
                        let q = m;
                        q.to_col < from_col + step
                    }),
            decreases 8 - step,
        {
            let cand_col = from_col + step;
            let cand_row = from_row + step;
            let mv = Move::new(from_col, from_row, cand_col, cand_row);
            let ghost pre = out@;
            self.push_if_valid(mv, out);
            proof {
                if spec_is_generated_move(self.board, self.turn, self.history.moves@, mv) {
                    assert(out@[out@.len() - 1] == mv);
                    assert(out@.contains(mv));
                }
                assert forall|m: Move|
                    spec_seg_up_right(from_col as int, from_row as int, m) && spec_is_generated_move(
                        self.board,
                        self.turn,
                        self.history.moves@,
                        m,
                    ) && ({
                        let q = m;
                        q.to_col < from_col + step + 1
                    }) implies out@.contains(m) by {
                    if m.to_col == from_col + step {
                        assert(m == mv);
                    } else {
                        assert(pre.contains(m));
                        let w = choose|w: int| 0 <= w < pre.len() && pre[w] == m;
                        assert(out@[w] == m);
                    }
                }
            }
            if self.board.at(cand_col, cand_row).is_occupied() {
                stopped = true;
                proof {
                    lemma_blocked_up_right(
                        self.board,
                        self.turn,
                        self.history.moves@,
                        from_col as int,
                        from_row as int,
                        step as int,
                    );
                }
            }
            step = step + 1;
        }
        proof {
            assert forall|m: Move|
                spec_seg_up_right(from_col as int, from_row as int, m) && spec_is_generated_move(
                        self.board,
                        self.turn,
                        self.history.moves@,
                        m,
                    ) implies out@.contains(m) by {
                assert(m.spec_in_bounds());
                assert(m.to_col < from_col + step || m.to_row < from_row + step);
                assert(m.to_col < from_col + step);
            }
        }
    }

    /// Walks the up-left diagonal, offering each square up to and
    /// including the first occupied one.
    fn slide_up_left(&self, from_col: i8, from_row: i8, out: &mut Vec<Move>)
        requires
            self.is_check == self.board.spec_is_check(self.turn),
            coord_in_bounds(from_col as int, from_row as int),
        ensures
            final(out)@.len() >= old(out)@.len(),
            forall|i: int| 0 <= i < old(out)@.len() ==> final(out)@[i] == old(out)@[i],
            forall|i: int|
                old(out)@.len() <= i < final(out)@.len() ==> spec_seg_up_left(
                    from_col as int,
                    from_row as int,
                    #[trigger] final(out)@[i],
                ) && spec_is_generated_move(
                    self.board,
                    self.turn,
                    self.history.moves@,
                    final(out)@[i],
                ),
            forall|i: int, j: int|
                old(out)@.len() <= i < j < final(out)@.len() ==> (#[trigger] final(out)@[i]).to_col
                    != (#[trigger] final(out)@[j]).to_col || (final(out)@[i]).to_row != (final(
                    out
                ))@[j].to_row,
            forall|m: Move|
                spec_seg_up_left(from_col as int, from_row as int, m) && spec_is_generated_move(
                    self.board,
                    self.turn,
                    self.history.moves@,
                    m,
                ) ==> final(out)@.contains(m),
    {
        let ghost orig = out@;
        let mut step: i8 = 1;
        let mut stopped = false;
        while from_col - step >= 0 && from_row + step < 8 && !stopped
            invariant
                self.is_check == self.board.spec_is_check(self.turn),
                coord_in_bounds(from_col as int, from_row as int),
                1 <= step <= 8,
                out@.len() >= orig.len(),
                forall|i: int| 0 <= i < orig.len() ==> out@[i] == orig[i],
                forall|i: int|
                    orig.len() <= i < out@.len() ==> spec_seg_up_left(
                        from_col as int,
                        from_row as int,
                        #[trigger] out@[i],
                    ) && spec_is_generated_move(
                        self.board,
                        self.turn,
                        self.history.moves@,
                        out@[i],
                    ) && ({
                        let q = out@[i];
                        q.to_col > from_col - step
                    }),
                forall|i: int, j: int|
                    orig.len() <= i < j < out@.len() ==> (#[trigger] out@[i]).to_col != (
                    #[trigger] out@[j]).to_col || (out@[i]).to_row != (out@[j]).to_row,
                forall|m: Move|
                    spec_seg_up_left(from_col as int, from_row as int, m) && spec_is_generated_move(
                        self.board,
                        self.turn,
                        self.history.moves@,
                        m,
                    ) && ({
                        let q = m;
                        q.to_col > from_col - step
                    }) ==> out@.contains(m),
                stopped ==> forall|m: Move|
                    spec_seg_up_left(from_col as int, from_row as int, m) && spec_is_generated_move(
                        self.board,
                        self.turn,
                        self.history.moves@,
                        m,
                    ) ==> ({
                        let q = m;
                        q.to_col > from_col - step
                    }),
            decreases 8 - step,
        {
            let cand_col = from_col - step;
            let cand_row = from_row + step;
            let mv = Move::new(from_col, from_row, cand_col, cand_row);
            let ghost pre = out@;
            self.push_if_valid(mv, out);
            proof {
                if spec_is_generated_move(self.board, self.turn, self.history.moves@, mv) {
                    assert(out@[out@.len() - 1] == mv);
                    assert(out@.contains(mv));
                }
                assert forall|m: Move|
                    spec_seg_up_left(from_col as int, from_row as int, m) && spec_is_generated_move(
                        self.board,
                        self.turn,
                        self.history.moves@,
                        m,
                    ) && ({
                        let q = m;
                        q.to_col > from_col - step - 1
                    }) implies out@.contains(m) by {
                    if m.to_col == from_col - step {
                        assert(m == mv);
                    } else {
                        assert(pre.contains(m));
                        let w = choose|w: int| 0 <= w < pre.len() && pre[w] == m;
                        assert(out@[w] == m);
                    }
                }
            }
            if self.board.at(cand_col, cand_row).is_occupied() {
                stopped = true;
                proof {
                    lemma_blocked_up_left(
                        self.board,
                        self.turn,
                        self.history.moves@,
                        from_col as int,
                        from_row as int,
                        step as int,
                    );
                }
            }
            step = step + 1;
        }
        proof {
            assert forall|m: Move|
                spec_seg_up_left(from_col as int, from_row as int, m) && spec_is_generated_move(
                        self.board,
                        self.turn,
                        self.history.moves@,
                        m,
                    ) implies out@.contains(m) by {
                assert(m.spec_in_bounds());
                assert(m.to_col > from_col - step || m.to_row < from_row + step);
                assert(m.to_col > from_col - step);
            }
        }
    }

    /// Walks the down-right diagonal, offering each square up to and
    /// including the first occupied one.
    fn slide_down_right(&self, from_col: i8, from_row: i8, out: &mut Vec<Move>)
        requires
            self.is_check == self.board.spec_is_check(self.turn),
            coord_in_bounds(from_col as int, from_row as int),
        ensures
            final(out)@.len() >= old(out)@.len(),
            forall|i: int| 0 <= i < old(out)@.len() ==> final(out)@[i] == old(out)@[i],
            forall|i: int|
                old(out)@.len() <= i < final(out)@.len() ==> spec_seg_down_right(
                    from_col as int,
                    from_row as int,
                    #[trigger] final(out)@[i],
                ) && spec_is_generated_move(
                    self.board,
                    self.turn,
                    self.history.moves@,
                    final(out)@[i],
                ),
            forall|i: int, j: int|
                old(out)@.len() <= i < j < final(out)@.len() ==> (#[trigger] final(out)@[i]).to_col
                    != (#[trigger] final(out)@[j]).to_col || (final(out)@[i]).to_row != (final(
                    out
                ))@[j].to_row,
            forall|m: Move|
                spec_seg_down_right(from_col as int, from_row as int, m) && spec_is_generated_move(
                    self.board,
                    self.turn,
                    self.history.moves@,
                    m,
                ) ==> final(out)@.contains(m),
    {
        let ghost orig = out@;
        let mut step: i8 = 1;
        let mut stopped = false;
        while from_col + step < 8 && from_row - step >= 0 && !stopped
            invariant
                self.is_check == self.board.spec_is_check(self.turn),
                coord_in_bounds(from_col as int, from_row as int),
                1 <= step <= 8,
                out@.len() >= orig.len(),
                forall|i: int| 0 <= i < orig.len() ==> out@[i] == orig[i],
                forall|i: int|
                    orig.len() <= i < out@.len() ==> spec_seg_down_right(
                        from_col as int,
                        from_row as int,
                        #[trigger] out@[i],
                    ) && spec_is_generated_move(
                        self.board,
                        self.turn,
                        self.history.moves@,
                        out@[i],
                    ) && ({
                        let q = out@[i];
                        q.to_col < from_col + step
                    }),
                forall|i: int, j: int|
                    orig.len() <= i < j < out@.len() ==> (#[trigger] out@[i]).to_col != (
                    #[trigger] out@[j]).to_col || (out@[i]).to_row != (out@[j]).to_row,
                forall|m: Move|
                    spec_seg_down_right(from_col as int, from_row as int, m) && spec_is_generated_move(
                        self.board,
                        self.turn,
                        self.history.moves@,
                        m,
                    ) && ({
                        let q = m;
                        q.to_col < from_col + step
                    }) ==> out@.contains(m),
                stopped ==> forall|m: Move|
                    spec_seg_down_right(from_col as int, from_row as int, m) && spec_is_generated_move(
                        self.board,
                        self.turn,
                        self.history.moves@,
                        m,
                    ) ==> ({
                        let q = m;
                        q.to_col < from_col + step
                    }),
            decreases 8 - step,
        {
            let cand_col = from_col + step;
            let cand_row = from_row - step;
            let mv = Move::new(from_col, from_row, cand_col, cand_row);
            let ghost pre = out@;
            self.push_if_valid(mv, out);
            proof {
                if spec_is_generated_move(self.board, self.turn, self.history.moves@, mv) {
                    assert(out@[out@.len() - 1] == mv);
                    assert(out@.contains(mv));
                }
                assert forall|m: Move|
                    spec_seg_down_right(from_col as int, from_row as int, m) && spec_is_generated_move(
                        self.board,
                        self.turn,
                        self.history.moves@,
                        m,
                    ) && ({
                        let q = m;
                        q.to_col < from_col + step + 1
                    }) implies out@.contains(m) by {
                    if m.to_col == from_col + step {
                        assert(m == mv);
                    } else {
                        assert(pre.contains(m));
                        let w = choose|w: int| 0 <= w < pre.len() && pre[w] == m;
                        assert(out@[w] == m);
                    }
                }
            }
            if self.board.at(cand_col, cand_row).is_occupied() {
                stopped = true;
                proof {
                    lemma_blocked_down_right(
                        self.board,
                        self.turn,
                        self.history.moves@,
                        from_col as int,
                        from_row as int,
                        step as int,
                    );
                }
            }
            step = step + 1;
        }
        proof {
            assert forall|m: Move|
                spec_seg_down_right(from_col as int, from_row as int, m) && spec_is_generated_move(
                        self.board,
                        self.turn,
                        self.history.moves@,
                        m,
                    ) implies out@.contains(m) by {
                assert(m.spec_in_bounds());
                assert(m.to_col < from_col + step || m.to_row > from_row - step);
                assert(m.to_col < from_col + step);
            }
        }
    }

    /// Walks the down-left diagonal, offering each square up to and
    /// including the first occupied one.
    fn slide_down_left(&self, from_col: i8, from_row: i8, out: &mut Vec<Move>)
        requires
            self.is_check == self.board.spec_is_check(self.turn),
            coord_in_bounds(from_col as int, from_row as int),
        ensures
            final(out)@.len() >= old(out)@.len(),
            forall|i: int| 0 <= i < old(out)@.len() ==> final(out)@[i] == old(out)@[i],
            forall|i: int|
                old(out)@.len() <= i < final(out)@.len() ==> spec_seg_down_left(
                    from_col as int,
                    from_row as int,
                    #[trigger] final(out)@[i],
                ) && spec_is_generated_move(
                    self.board,
                    self.turn,
                    self.history.moves@,
                    final(out)@[i],
                ),
            forall|i: int, j: int|
                old(out)@.len() <= i < j < final(out)@.len() ==> (#[trigger] final(out)@[i]).to_col
                    != (#[trigger] final(out)@[j]).to_col || (final(out)@[i]).to_row != (final(
                    out
                ))@[j].to_row,
            forall|m: Move|
                spec_seg_down_left(from_col as int, from_row as int, m) && spec_is_generated_move(
                    self.board,
                    self.turn,
                    self.history.moves@,
                    m,
                ) ==> final(out)@.contains(m),
    {
        let ghost orig = out@;
        let mut step: i8 = 1;
        let mut stopped = false;
        while from_col - step >= 0 && from_row - step >= 0 && !stopped
            invariant
                self.is_check == self.board.spec_is_check(self.turn),
                coord_in_bounds(from_col as int, from_row as int),
                1 <= step <= 8,
                out@.len() >= orig.len(),
                forall|i: int| 0 <= i < orig.len() ==> out@[i] == orig[i],
                forall|i: int|
                    orig.len() <= i < out@.len() ==> spec_seg_down_left(
                        from_col as int,
                        from_row as int,
                        #[trigger] out@[i],
                    ) && spec_is_generated_move(
                        self.board,
                        self.turn,
                        self.history.moves@,
                        out@[i],
                    ) && ({
                        let q = out@[i];
                        q.to_col > from_col - step
                    }),
                forall|i: int, j: int|
                    orig.len() <= i < j < out@.len() ==> (#[trigger] out@[i]).to_col != (
                    #[trigger] out@[j]).to_col || (out@[i]).to_row != (out@[j]).to_row,
                forall|m: Move|
                    spec_seg_down_left(from_col as int, from_row as int, m) && spec_is_generated_move(
                        self.board,
                        self.turn,
                        self.history.moves@,
                        m,
                    ) && ({
                        let q = m;
                        q.to_col > from_col - step
                    }) ==> out@.contains(m),
                stopped ==> forall|m: Move|
                    spec_seg_down_left(from_col as int, from_row as int, m) && spec_is_generated_move(
                        self.board,
                        self.turn,
                        self.history.moves@,
                        m,
                    ) ==> ({
                        let q = m;
                        q.to_col > from_col - step
                    }),
            decreases 8 - step,
        {
            let cand_col = from_col - step;
            let cand_row = from_row - step;
            let mv = Move::new(from_col, from_row, cand_col, cand_row);
            let ghost pre = out@;
            self.push_if_valid(mv, out);
            proof {
                if spec_is_generated_move(self.board, self.turn, self.history.moves@, mv) {
                    assert(out@[out@.len() - 1] == mv);
                    assert(out@.contains(mv));
                }
                assert forall|m: Move|
                    spec_seg_down_left(from_col as int, from_row as int, m) && spec_is_generated_move(
                        self.board,
                        self.turn,
                        self.history.moves@,
                        m,
                    ) && ({
                        let q = m;
                        q.to_col > from_col - step - 1
                    }) implies out@.contains(m) by {
                    if m.to_col == from_col - step {
                        assert(m == mv);
                    } else {
                        assert(pre.contains(m));
                        let w = choose|w: int| 0 <= w < pre.len() && pre[w] == m;
                        assert(out@[w] == m);
                    }
                }
            }
            if self.board.at(cand_col, cand_row).is_occupied() {
                stopped = true;
                proof {
                    lemma_blocked_down_left(
                        self.board,
                        self.turn,
                        self.history.moves@,
                        from_col as int,
                        from_row as int,
                        step as int,
                    );
                }
            }
            step = step + 1;
        }
        proof {
            assert forall|m: Move|
                spec_seg_down_left(from_col as int, from_row as int, m) && spec_is_generated_move(
                        self.board,
                        self.turn,
                        self.history.moves@,
                        m,
                    ) implies out@.contains(m) by {
                assert(m.spec_in_bounds());
                assert(m.to_col > from_col - step || m.to_row > from_row - step);
                assert(m.to_col > from_col - step);
            }
        }
    }
}


impl Game {
    /// Offers the eight knight jumps from (fc, fr), bounds-filtered.
    fn knight_candidates(&self, from_col: i8, from_row: i8, out: &mut Vec<Move>)
        requires
            self.is_check == self.board.spec_is_check(self.turn),
            coord_in_bounds(from_col as int, from_row as int),
        ensures
            final(out)@.len() >= old(out)@.len(),
            forall|i: int| 0 <= i < old(out)@.len() ==> final(out)@[i] == old(out)@[i],
            forall|i: int|
                old(out)@.len() <= i < final(out)@.len() ==> spec_knight_dom(
                    from_col as int,
                    from_row as int,
                    #[trigger] final(out)@[i],
                ) && spec_is_generated_move(
                    self.board,
                    self.turn,
                    self.history.moves@,
                    final(out)@[i],
                ),
            forall|i: int, j: int|
                old(out)@.len() <= i < j < final(out)@.len() ==> (#[trigger] final(out)@[i]).to_col
                    != (#[trigger] final(out)@[j]).to_col || (final(out)@[i]).to_row != (final(
                    out
                ))@[j].to_row,
            forall|m: Move|
                spec_knight_dom(from_col as int, from_row as int, m) && spec_is_generated_move(
                    self.board,
                    self.turn,
                    self.history.moves@,
                    m,
                ) ==> final(out)@.contains(m),
            forall|m: Move| old(out)@.contains(m) ==> final(out)@.contains(m),
    {
        let ghost orig = out@;
        let mut k: i8 = 0;
        while k < 8
            invariant
                self.is_check == self.board.spec_is_check(self.turn),
                coord_in_bounds(from_col as int, from_row as int),
                0 <= k <= 8,
                out@.len() >= orig.len(),
                forall|i: int| 0 <= i < orig.len() ==> out@[i] == orig[i],
                forall|i: int|
                    orig.len() <= i < out@.len() ==> spec_knight_dom(
                        from_col as int,
                        from_row as int,
                        #[trigger] out@[i],
                    ) && spec_is_generated_move(
                        self.board,
                        self.turn,
                        self.history.moves@,
                        out@[i],
                    ) && spec_knight_delta_index(
                        out@[i].to_col - from_col,
                        out@[i].to_row - from_row,
                    ) < k,
                forall|i: int, j: int|
                    orig.len() <= i < j < out@.len() ==> spec_knight_delta_index(
                        (#[trigger] out@[i]).to_col - from_col,
                        out@[i].to_row - from_row,
                    ) != spec_knight_delta_index(
                        (#[trigger] out@[j]).to_col - from_col,
                        out@[j].to_row - from_row,
                    ),
                forall|m: Move|
                    spec_knight_dom(from_col as int, from_row as int, m) && spec_is_generated_move(
                        self.board,
                        self.turn,
                        self.history.moves@,
                        m,
                    ) && spec_knight_delta_index(m.to_col - from_col, m.to_row - from_row) < k
                        ==> out@.contains(m),
            decreases 8 - k,
        {
            let (dc, dr): (i8, i8) = match k {
                0 => (2, 1),
                1 => (2, -1),
                2 => (-2, 1),
                3 => (-2, -1),
                4 => (1, 2),
                5 => (1, -2),
                6 => (-1, 2),
                _ => (-1, -2),
            };
            let tc = from_col + dc;
            let tr = from_row + dr;
            let ghost pre = out@;
            if 0 <= tc && tc < 8 && 0 <= tr && tr < 8 {
                self.push_if_valid(Move::new(from_col, from_row, tc, tr), out);
            }
            proof {
                assert forall|m: Move|
                    spec_knight_dom(from_col as int, from_row as int, m)
                        && spec_is_generated_move(
                        self.board,
                        self.turn,
                        self.history.moves@,
                        m,
                    ) && spec_knight_delta_index(m.to_col - from_col, m.to_row - from_row) < k + 1
                        implies out@.contains(m) by {
                    if spec_knight_delta_index(m.to_col - from_col, m.to_row - from_row) == k {
                        assert(m.spec_in_bounds());
                        assert(m.to_col == from_col + dc && m.to_row == from_row + dr);
                        assert(out@[out@.len() - 1] == m);
                    } else {
                        assert(pre.contains(m));
                        let w = choose|w: int| 0 <= w < pre.len() && pre[w] == m;
                        assert(out@[w] == m);
                    }
                }
            }
            k = k + 1;
        }
        proof {
            assert forall|m: Move|
                spec_knight_dom(from_col as int, from_row as int, m) && spec_is_generated_move(
                    self.board,
                    self.turn,
                    self.history.moves@,
                    m,
                ) implies out@.contains(m) by {
                assert(spec_knight_delta_index(m.to_col - from_col, m.to_row - from_row) < 8);
            }
            assert forall|i: int, j: int|
                orig.len() <= i < j < out@.len() implies (#[trigger] out@[i]).to_col != (
            #[trigger] out@[j]).to_col || (out@[i]).to_row != (out@[j]).to_row by {}
        }
    }

    /// Offers the queen-promotion candidates: one push and two captures onto
    /// the back rank, when the pawn stands one rank away.
    fn promo_candidates(&self, from_col: i8, from_row: i8, out: &mut Vec<Move>)
        requires
            self.is_check == self.board.spec_is_check(self.turn),
            coord_in_bounds(from_col as int, from_row as int),
        ensures
            final(out)@.len() >= old(out)@.len(),
            forall|i: int| 0 <= i < old(out)@.len() ==> final(out)@[i] == old(out)@[i],
            forall|i: int|
                old(out)@.len() <= i < final(out)@.len() ==> spec_promo_dom(
                    from_col as int,
                    from_row as int,
                    #[trigger] final(out)@[i],
                ) && spec_is_generated_move(
                    self.board,
                    self.turn,
                    self.history.moves@,
                    final(out)@[i],
                ),
            forall|i: int, j: int|
                old(out)@.len() <= i < j < final(out)@.len() ==> (#[trigger] final(out)@[i]).to_col
                    != (#[trigger] final(out)@[j]).to_col || (final(out)@[i]).to_row != (final(
                    out
                ))@[j].to_row,
            forall|m: Move|
                spec_promo_dom(from_col as int, from_row as int, m) && spec_is_generated_move(
                    self.board,
                    self.turn,
                    self.history.moves@,
                    m,
                ) ==> final(out)@.contains(m),
            forall|m: Move| old(out)@.contains(m) ==> final(out)@.contains(m),
    {
        let to_row: i8 = if from_row == 6 {
            7
        } else if from_row == 1 {
            0
        } else {
            proof {
                lemma_no_promotion_far_from_back_rank(
                    self.board,
                    self.turn,
                    self.history.moves@,
                    from_col as int,
                    from_row as int,
                );
            }
            return ;
        };
        if from_col - 1 >= 0 {
            self.push_if_valid(
                Move::with_promotion(from_col, from_row, from_col - 1, to_row, PieceType::Queen),
                out,
            );
        }
        self.push_if_valid(
            Move::with_promotion(from_col, from_row, from_col, to_row, PieceType::Queen),
            out,
        );
        if from_col + 1 < 8 {
            self.push_if_valid(
                Move::with_promotion(from_col, from_row, from_col + 1, to_row, PieceType::Queen),
                out,
            );
        }
        proof {
            assert forall|m: Move|
                spec_promo_dom(from_col as int, from_row as int, m) && spec_is_generated_move(
                    self.board,
                    self.turn,
                    self.history.moves@,
                    m,
                ) implies out@.contains(m) by {
                lemma_promotion_shape(
                    self.board,
                    self.turn,
                    self.history.moves@,
                    from_col as int,
                    from_row as int,
                    m,
                );
            }
        }
    }
}

/// A generated promotion is a pawn's one-step arrival on the back rank:
/// the source rank is 1 or 6 and the destination file differs by at most one.
proof fn lemma_promotion_shape(
    board: Board,
    turn: PieceColor,
    history: Seq<Move>,
    fc: int,
    fr: int,
    m: Move,
)
    requires
        spec_promo_dom(fc, fr, m),
        spec_is_generated_move(board, turn, history, m),
    ensures
        m.promotion_to == Some(PieceType::Queen),
        (m.to_row == 7 && fr == 6) || (m.to_row == 0 && fr == 1),
        fc - 1 <= m.to_col <= fc + 1,
        m.spec_in_bounds(),
{
    let piece = board.spec_at(fc, fr).piece_type->Some_0;
    assert(spec_promotion_field_ok(piece, m));
    assert(piece == PieceType::Pawn);
    assert(spec_pawn_move_ok(board, turn, history, m));
    assert(m.spec_is_pawn_move(turn) || m.spec_is_pawn_capture(turn));
}

/// A pawn not standing one rank from the back rank has no legal promotion.
proof fn lemma_no_promotion_far_from_back_rank(
    board: Board,
    turn: PieceColor,
    history: Seq<Move>,
    fc: int,
    fr: int,
)
    requires
        fr != 1 && fr != 6,
    ensures
        forall|m: Move|
            spec_promo_dom(fc, fr, m) ==> !spec_is_generated_move(board, turn, history, m),
{
    assert forall|m: Move|
        spec_promo_dom(fc, fr, m) implies !spec_is_generated_move(board, turn, history, m) by {
        if spec_is_generated_move(board, turn, history, m) {
            lemma_promotion_shape(board, turn, history, fc, fr, m);
        }
    }
}


impl Game {
    /// All generated moves out of one square: every fully legal move whose
    /// source is (col, row), with promotions represented by the single
    /// queen-promotion candidate. Duplicate-free; order within the square is
    /// unspecified.
    pub(crate) fn moves_from_square(&self, col: i8, row: i8) -> (out: Vec<Move>)
        requires
            self.is_check == self.board.spec_is_check(self.turn),
            coord_in_bounds(col as int, row as int),
        ensures
            out@.no_duplicates(),
            forall|m: Move|
                out@.contains(m) <==> (spec_is_generated_move(
                    self.board,
                    self.turn,
                    self.history.moves@,
                    m,
                ) && m.from_col == col && m.from_row == row),
    {
        let mut out: Vec<Move> = Vec::new();
        let ghost n0 = out@.len() as int;
        self.slide_right(col, row, &mut out);
        let ghost n1 = out@.len() as int;
        self.slide_left(col, row, &mut out);
        let ghost n2 = out@.len() as int;
        self.slide_up(col, row, &mut out);
        let ghost n3 = out@.len() as int;
        self.slide_down(col, row, &mut out);
        let ghost n4 = out@.len() as int;
        self.slide_up_right(col, row, &mut out);
        let ghost n5 = out@.len() as int;
        self.slide_up_left(col, row, &mut out);
        let ghost n6 = out@.len() as int;
        self.slide_down_right(col, row, &mut out);
        let ghost n7 = out@.len() as int;
        self.slide_down_left(col, row, &mut out);
        let ghost n8 = out@.len() as int;
        self.knight_candidates(col, row, &mut out);
        let ghost n9 = out@.len() as int;
        self.promo_candidates(col, row, &mut out);

        proof {
            let fc = col as int;
            let fr = row as int;
            assert forall|i: int, j: int| 0 <= i < j < out@.len() implies out@[i] != out@[j] by {}
            assert(out@.no_duplicates());
            assert forall|m: Move|
                spec_is_generated_move(self.board, self.turn, self.history.moves@, m)
                    && m.from_col == col && m.from_row == row implies out@.contains(m) by {
                lemma_generated_move_shape(
                    self.board,
                    self.turn,
                    self.history.moves@,
                    fc,
                    fr,
                    m,
                );
            }
        }
        out
    }
}


impl Game {
    /// The whole-board legal-move list: per-square generation in increasing
    /// rank-then-file order, so the result is sorted by origin square.
    pub(crate) fn generated_moves(&self) -> (out: Vec<Move>)
        requires
            self.is_check == self.board.spec_is_check(self.turn),
        ensures
            out@.no_duplicates(),
            spec_moves_sorted(out@),
            forall|m: Move|
                out@.contains(m) <==> spec_is_generated_move(
                    self.board,
                    self.turn,
                    self.history.moves@,
                    m,
                ),
    {
        let mut out: Vec<Move> = Vec::new();
        let mut row: i8 = 0;
        while row < 8
            invariant
                self.is_check == self.board.spec_is_check(self.turn),
                0 <= row <= 8,
                out@.no_duplicates(),
                spec_moves_sorted(out@),
                forall|i: int|
                    0 <= i < out@.len() ==> spec_is_generated_move(
                        self.board,
                        self.turn,
                        self.history.moves@,
                        #[trigger] out@[i],
                    ) && out@[i].from_row < row,
                forall|m: Move|
                    spec_is_generated_move(self.board, self.turn, self.history.moves@, m)
                        && m.from_row < row ==> out@.contains(m),
            decreases 8 - row,
        {
            let mut col: i8 = 0;
            while col < 8
                invariant
                    self.is_check == self.board.spec_is_check(self.turn),
                    0 <= row < 8,
                    0 <= col <= 8,
                    out@.no_duplicates(),
                    spec_moves_sorted(out@),
                    forall|i: int|
                        0 <= i < out@.len() ==> spec_is_generated_move(
                            self.board,
                            self.turn,
                            self.history.moves@,
                            #[trigger] out@[i],
                        ) && (out@[i].from_row < row || (out@[i].from_row == row
                            && out@[i].from_col < col)),
                    forall|m: Move|
                        spec_is_generated_move(self.board, self.turn, self.history.moves@, m) && (
                        m.from_row < row || (m.from_row == row && m.from_col < col))
                            ==> out@.contains(m),
                decreases 8 - col,
            {
                let block = self.moves_from_square(col, row);
                let ghost pre = out@;
                let mut t: usize = 0;
                while t < block.len()
                    invariant
                        0 <= t <= block@.len(),
                        out@ == pre + block@.subrange(0, t as int),
                    decreases block@.len() - t,
                {
                    let mv = block[t];
                    out.push(mv);
                    proof {
                        assert(block@.subrange(0, t + 1 as int) == block@.subrange(
                            0,
                            t as int,
                        ).push(block@[t as int]));
                    }
                    t = t + 1;
                }
                proof {
                    assert(out@ == pre + block@);
                    assert(block@.subrange(0, block@.len() as int) == block@);
                    assert forall|i: int| 0 <= i < out@.len() implies (spec_is_generated_move(
                        self.board,
                        self.turn,
                        self.history.moves@,
                        #[trigger] out@[i],
                    ) && (out@[i].from_row < row || (out@[i].from_row == row && out@[i].from_col
                        < col + 1))) by {
                        if i < pre.len() {
                            assert(out@[i] == pre[i]);
                        } else {
                            assert(out@[i] == block@[i - pre.len()]);
                            assert(block@.contains(block@[i - pre.len()]));
                        }
                    }
                    assert forall|i: int, j: int| 0 <= i < j < out@.len() implies out@[i]
                        != out@[j] by {
                        if i < pre.len() && j >= pre.len() {
                            assert(out@[i] == pre[i]);
                            assert(out@[j] == block@[j - pre.len()]);
                            assert(block@.contains(block@[j - pre.len()]));
                        } else if i >= pre.len() {
                            assert(out@[i] == block@[i - pre.len()]);
                            assert(out@[j] == block@[j - pre.len()]);
                        } else {
                            assert(out@[i] == pre[i] && out@[j] == pre[j]);
                        }
                    }
                    assert(out@.no_duplicates());
                    assert forall|i: int, j: int| 0 <= i < j < out@.len() implies ((#[trigger] out@[
                        i
                    ]).from_row < (#[trigger] out@[j]).from_row || (out@[i].from_row
                        == out@[j].from_row && out@[i].from_col <= out@[j].from_col)) by {
                        if i < pre.len() && j >= pre.len() {
                            assert(out@[i] == pre[i]);
                            assert(out@[j] == block@[j - pre.len()]);
                            assert(block@.contains(block@[j - pre.len()]));
                        } else if i >= pre.len() {
                            assert(out@[i] == block@[i - pre.len()]);
                            assert(block@.contains(block@[i - pre.len()]));
                            assert(out@[j] == block@[j - pre.len()]);
                            assert(block@.contains(block@[j - pre.len()]));
                        } else {
                            assert(out@[i] == pre[i] && out@[j] == pre[j]);
                        }
                    }
                    assert(spec_moves_sorted(out@));
                    assert forall|m: Move|
                        spec_is_generated_move(self.board, self.turn, self.history.moves@, m) && (
                        m.from_row < row || (m.from_row == row && m.from_col < col + 1)) implies out@.contains(
                        m,
                    ) by {
                        if m.from_row == row && m.from_col == col {
                            assert(block@.contains(m));
                            let w = choose|w: int| 0 <= w < block@.len() && block@[w] == m;
                            assert(out@[pre.len() + w] == m);
                        } else {
                            assert(pre.contains(m));
                            let w = choose|w: int| 0 <= w < pre.len() && pre[w] == m;
                            assert(out@[w] == m);
                        }
                    }
                }
                col = col + 1;
            }
            proof {
                assert forall|m: Move|
                    spec_is_generated_move(self.board, self.turn, self.history.moves@, m)
                        && m.from_row < row + 1 implies out@.contains(m) by {
                    assert(m.spec_in_bounds());
                }
            }
            row = row + 1;
        }
        proof {
            assert forall|m: Move|
                spec_is_generated_move(self.board, self.turn, self.history.moves@, m) implies out@.contains(
                m,
            ) by {
                assert(m.spec_in_bounds());
            }
        }
        out
    }

    /// Regenerates the cached whole-board legal-move list.
    pub(crate) fn collect_possible_moves(&mut self)
        requires
            old(self).is_check == old(self).board.spec_is_check(old(self).turn),
        ensures
            final(self).board == old(self).board,
            final(self).turn == old(self).turn,
            final(self).history == old(self).history,
            final(self).is_check == old(self).is_check,
            final(self).result == old(self).result,
            final(self).possible_moves@.no_duplicates(),
            spec_moves_sorted(final(self).possible_moves@),
            forall|m: Move|
                final(self).possible_moves@.contains(m) <==> spec_is_generated_move(
                    final(self).board,
                    final(self).turn,
                    final(self).history.moves@,
                    m,
                ),
    {
        let new_moves = self.generated_moves();
        self.possible_moves = new_moves;
    }
}


/// A finite, restartable sequence of the fully legal moves out of one
/// square, produced eagerly at construction and handed out one at a time;
/// every candidate was filtered through the legality oracle, so a caller
/// never observes an illegal move.
pub struct PieceMovesIter {
    pub moves: Vec<Move>,
    pub index: usize,
}

impl PieceMovesIter {
    /// Builds the sequence for (from_col, from_row). A `None` piece type
    /// yields nothing; otherwise legality is derived from the board itself.
    pub fn new(
        game: &Game,
        piece_type: Option<PieceType>,
        _piece_color: PieceColor,
        from_col: i8,
        from_row: i8,
    ) -> (r: PieceMovesIter)
        requires
            game.is_check == game.board.spec_is_check(game.turn),
            coord_in_bounds(from_col as int, from_row as int),
        ensures
            r.index == 0,
            piece_type is None ==> r.moves@ =~= Seq::<Move>::empty(),
            piece_type is Some ==> r.moves@.no_duplicates() && (forall|m: Move|
                r.moves@.contains(m) <==> (spec_is_generated_move(
                    game.board,
                    game.turn,
                    game.history.moves@,
                    m,
                ) && m.from_col == from_col && m.from_row == from_row)),
    {
        let moves = if piece_type.is_some() {
            game.moves_from_square(from_col, from_row)
        } else {
            Vec::new()
        };
        PieceMovesIter { moves, index: 0 }
    }

    /// The next not-yet-yielded move, advancing the cursor.
    pub fn next(&mut self) -> (r: Option<Move>)
        ensures
            final(self).moves == old(self).moves,
            old(self).index < old(self).moves@.len() ==> r == Some(
                old(self).moves@[old(self).index as int],
            ) && final(self).index == old(self).index + 1,
            old(self).index >= old(self).moves@.len() ==> r is None && final(self).index == old(
                self,
            ).index,
    {
        if self.index < self.moves.len() {
            let mv = self.moves[self.index];
            self.index = self.index + 1;
            Some(mv)
        } else {
            None
        }
    }
}

} // verus!
