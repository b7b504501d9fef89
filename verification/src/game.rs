//! The game state machine: turn and history tracking, the full legality
//! oracle (geometric pseudo-legality plus a simulate-and-check step for pins
//! and discovered checks), castling and en-passant rights derived statelessly
//! from the move log, legal-move generation, and conclusion detection.
use vstd::prelude::*;

use crate::board::{Board, BoardSquare, PieceColor, PieceType};
use crate::moves::{abs_diff, spec_pawn_direction, Move};
use crate::pos::{coord_in_bounds, Pos};

verus! {

/// Why a move (or a notation string) was rejected. A returned error never
/// mutates the game.
#[derive(Copy, Clone, PartialEq, Eq, Structural, Debug)]
pub enum MoveError {
    OutOfBounds,
    NullMove,
    EmptySquare,
    WrongSideToMove,
    OwnPieceBlocked,
    InvalidPieceGeometry,
    InvalidPromotion,
    WouldLeaveKingInCheck,
    GameAlreadyOver,
    NotationParseError,
    AmbiguousNotation,
    NoLegalMoveFound,
}

/// The outcome of a concluded game; no winner means a draw.
#[derive(Copy, Clone, PartialEq, Eq, Structural, Debug)]
pub struct GameResult {
    pub winner: Option<PieceColor>,
}

/// The ordered, append-only log of played moves, with an optional
/// non-standard starting point.
pub struct GameHistory {
    pub initial_state: Option<Board>,
    pub initial_turn: Option<PieceColor>,
    pub moves: Vec<Move>,
}

impl GameHistory {
    pub fn new() -> (r: GameHistory)
        ensures
            r.initial_state is None,
            r.initial_turn is None,
            r.moves@ =~= Seq::<Move>::empty(),
    {
        GameHistory { initial_state: None, initial_turn: None, moves: Vec::new() }
    }

    pub fn with_moves(moves: Vec<Move>) -> (r: GameHistory)
        ensures
            r.initial_state is None,
            r.initial_turn is None,
            r.moves@ == moves@,
    {
        GameHistory { initial_state: None, initial_turn: None, moves }
    }

    pub fn moves(&self) -> (r: &Vec<Move>)
        ensures
            r == &self.moves,
    {
        &self.moves
    }

    pub fn initial_state(&self) -> (r: &Option<Board>)
        ensures
            r == &self.initial_state,
    {
        &self.initial_state
    }

    pub fn initial_turn(&self) -> (r: &Option<PieceColor>)
        ensures
            r == &self.initial_turn,
    {
        &self.initial_turn
    }
}

/// A pawn move passes the pawn-specific legality checks: an unobstructed push
/// (including the crossed square of a two-step advance), or a diagonal
/// capture that either takes an enemy piece or is an en-passant capture whose
/// qualifying two-square advance was the immediately preceding move.
pub open spec fn spec_pawn_move_ok(
    board: Board,
    color: PieceColor,
    history: Seq<Move>,
    m: Move,
) -> bool {
    if m.spec_is_pawn_move(color) {
        &&& !board.spec_at(m.to_col as int, m.to_row as int).spec_is_occupied()
        &&& (abs_diff(m.from_row as int, m.to_row as int) == 2 ==> !board.spec_at(
            m.from_col as int,
            m.from_row + spec_pawn_direction(color),
        ).spec_is_occupied())
    } else if m.spec_is_pawn_capture(color) {
        match board.spec_en_passant_target(m) {
            Some(captured) => {
                &&& history.len() > 0
                &&& history.last().from_col == m.to_col
                &&& history.last().from_row == (if color == PieceColor::White {
                    6int
                } else {
                    1int
                })
                &&& history.last().to_col == captured.col
                &&& history.last().to_row == captured.row
            },
            None => true,
        }
    } else {
        false
    }
}

/// A king's two-file move is a legal castle: the board-level castle check
/// passes (shape, rook present, corridor empty, no crossed square attacked),
/// the king is not currently in check, and no history entry ever moved a
/// piece off the king's or that rook's home square.
pub open spec fn spec_legal_castle(
    board: Board,
    turn: PieceColor,
    history: Seq<Move>,
    m: Move,
) -> bool {
    match board.spec_possible_castle(m) {
        None => false,
        Some((old_rook_pos, new_rook_pos)) => {
            &&& !board.spec_is_check(turn)
            &&& !exists|k: int|
                0 <= k < history.len() && (#[trigger] history[k]).from_row == m.from_row && (
                history[k].from_col == m.from_col || history[k].from_col == old_rook_pos.col)
        },
    }
}

/// The piece-specific shape and capture rules of step five of validation.
pub open spec fn spec_piece_geometry_ok(
    board: Board,
    turn: PieceColor,
    history: Seq<Move>,
    piece: PieceType,
    m: Move,
) -> bool {
    match piece {
        PieceType::Pawn => spec_pawn_move_ok(board, turn, history, m),
        PieceType::Bishop => board.spec_possible_bishop_capture(m),
        PieceType::Knight => m.spec_is_knight_move(),
        PieceType::Rook => board.spec_possible_rook_capture(m),
        PieceType::Queen => board.spec_possible_queen_capture(m),
        PieceType::King => m.spec_is_regular_king_move() || spec_legal_castle(
            board,
            turn,
            history,
            m,
        ),
    }
}

/// The promotion field is set exactly when a pawn reaches the back rank, and
/// only to a bishop, knight, rook or queen.
pub open spec fn spec_promotion_field_ok(piece: PieceType, m: Move) -> bool {
    match m.promotion_to {
        None => !(piece == PieceType::Pawn && (m.to_row == 0 || m.to_row == 7)),
        Some(p) => piece == PieceType::Pawn && (m.to_row == 0 || m.to_row == 7)
            && p.spec_is_valid_for_promotion(),
    }
}

/// The legality oracle: the exact result of validating `m` against a board,
/// a side to move and a move log, in the fixed order of checks — bounds,
/// null move, source occupancy and ownership, destination ownership,
/// piece geometry, promotion field, then the self-check simulation.
pub open spec fn spec_validate_move(
    board: Board,
    turn: PieceColor,
    history: Seq<Move>,
    m: Move,
) -> Result<(), MoveError> {
    if !m.spec_in_bounds() {
        Err(MoveError::OutOfBounds)
    } else if m.from_col == m.to_col && m.from_row == m.to_row {
        Err(MoveError::NullMove)
    } else {
        let from_square = board.spec_at(m.from_col as int, m.from_row as int);
        match from_square.piece_type {
            None => Err(MoveError::EmptySquare),
            Some(piece) => if from_square.piece_color != turn {
                Err(MoveError::WrongSideToMove)
            } else if board.spec_at(m.to_col as int, m.to_row as int).spec_occupied_by(turn) {
                Err(MoveError::OwnPieceBlocked)
            } else if !spec_piece_geometry_ok(board, turn, history, piece, m) {
                Err(MoveError::InvalidPieceGeometry)
            } else if !spec_promotion_field_ok(piece, m) {
                Err(MoveError::InvalidPromotion)
            } else if board.spec_apply_move(m).spec_is_check(turn) {
                Err(MoveError::WouldLeaveKingInCheck)
            } else {
                Ok(())
            },
        }
    }
}

/// A move the generator yields: fully legal, and carrying either no
/// promotion or the generator's single queen-promotion candidate.
pub open spec fn spec_is_generated_move(
    board: Board,
    turn: PieceColor,
    history: Seq<Move>,
    m: Move,
) -> bool {
    &&& spec_validate_move(board, turn, history, m) is Ok
    &&& (m.promotion_to is None || m.promotion_to == Some(PieceType::Queen))
}

/// Sorted by origin square, rank first: the order the whole-board scan
/// produces, which lets `get_moves_from` find a contiguous run.
pub open spec fn spec_moves_sorted(s: Seq<Move>) -> bool {
    forall|i: int, j: int|
        0 <= i < j < s.len() ==> ((#[trigger] s[i]).from_row < (#[trigger] s[j]).from_row || (
        s[i].from_row == s[j].from_row && s[i].from_col <= s[j].from_col))
}

/// The conclusion rule: the game ends exactly when the side to move has no
/// generated move; the previous mover wins if the stuck side is in check,
/// otherwise the game is drawn.
pub open spec fn spec_conclusion(
    board: Board,
    turn: PieceColor,
    possible_moves: Seq<Move>,
) -> Option<GameResult> {
    if possible_moves.len() == 0 {
        if board.spec_is_check(turn) {
            Some(GameResult { winner: Some(turn.spec_opposite()) })
        } else {
            Some(GameResult { winner: None })
        }
    } else {
        None
    }
}

/// The turn/history/result state machine and legality oracle.
pub struct Game {
    pub board: Board,
    pub turn: PieceColor,
    pub possible_moves: Vec<Move>,
    pub is_check: bool,
    pub history: GameHistory,
    pub result: Option<GameResult>,
}

impl Game {
    /// The cached check flag agrees with the board, and the side to move has
    /// a king (a kingless side to move is a broken invariant, not a state).
    pub open spec fn spec_state_ok(self) -> bool {
        &&& self.board.spec_has_king(self.turn)
        &&& self.is_check == self.board.spec_is_check(self.turn)
    }

    /// Well-formedness: the caches (check flag, legal-move list, result)
    /// agree with what the board, turn and history determine.
    pub open spec fn wf(self) -> bool {
        &&& self.spec_state_ok()
        &&& self.possible_moves@.no_duplicates()
        &&& spec_moves_sorted(self.possible_moves@)
        &&& forall|m: Move|
            self.possible_moves@.contains(m) <==> spec_is_generated_move(
                self.board,
                self.turn,
                self.history.moves@,
                m,
            )
        &&& self.result == spec_conclusion(self.board, self.turn, self.possible_moves@)
    }

    pub fn board(&self) -> (r: &Board)
        ensures
            r == &self.board,
    {
        &self.board
    }

    pub fn history(&self) -> (r: &GameHistory)
        ensures
            r == &self.history,
    {
        &self.history
    }

    pub fn result(&self) -> (r: &Option<GameResult>)
        ensures
            r == &self.result,
    {
        &self.result
    }

    pub fn is_check(&self) -> (r: bool)
        ensures
            r == self.is_check,
    {
        self.is_check
    }

    /// The legality oracle. Checks, in order: coordinates on the board, a
    /// real displacement, a piece of the side to move on the source square,
    /// no friendly piece on the destination, the piece's own geometry
    /// (including en-passant and castling rights from history), a promotion
    /// field exactly on a pawn's back-rank arrival, and finally that the
    /// moved position does not leave the mover's own king in check.
    pub fn validate_move(&self, mv: &Move) -> (r: Result<(), MoveError>)
        requires
            self.is_check == self.board.spec_is_check(self.turn),
        ensures
            r == spec_validate_move(self.board, self.turn, self.history.moves@, *mv),
    {
        if mv.from_col < 0 || mv.from_col > 7 || mv.from_row < 0 || mv.from_row > 7 || mv.to_col
            < 0 || mv.to_col > 7 || mv.to_row < 0 || mv.to_row > 7 {
            return Err(MoveError::OutOfBounds);
        }
        if mv.from_col == mv.to_col && mv.from_row == mv.to_row {
            return Err(MoveError::NullMove);
        }

        let from_square = *self.board.at(mv.from_col, mv.from_row);
        let Some(piece) = from_square.piece_type() else {
            return Err(MoveError::EmptySquare);
        };
        if from_square.piece_color() != self.turn {
            return Err(MoveError::WrongSideToMove);
        }

        let target_square = self.board.at(mv.to_col, mv.to_row);
        if target_square.is_occupied_by_color(self.turn) {
            return Err(MoveError::OwnPieceBlocked);
        }

        let is_valid_move: bool = match piece {
            PieceType::Pawn => self.validate_pawn_move(mv, self.turn).is_ok(),
            PieceType::Bishop => self.board.is_possible_bishop_capture(mv),
            PieceType::Knight => mv.is_knight_move(),
            PieceType::Rook => self.board.is_possible_rook_capture(mv),
            PieceType::Queen => self.board.is_possible_queen_capture(mv),
            PieceType::King => self.validate_king_move(mv).is_ok(),
        };
        if !is_valid_move {
            return Err(MoveError::InvalidPieceGeometry);
        }

        let promotion_ok: bool = match mv.promotion_to {
            None => !(piece == PieceType::Pawn && (mv.to_row == 0 || mv.to_row == 7)),
            Some(p) => piece == PieceType::Pawn && (mv.to_row == 0 || mv.to_row == 7)
                && p.is_valid_for_promotion(),
        };
        if !promotion_ok {
            return Err(MoveError::InvalidPromotion);
        }

        let mut imitated_board = self.board;
        imitated_board.make_move(mv);
        proof {
            imitated_board.lemma_first_king_sound(self.turn, 0, 0);
        }
        let own_king_attacked: bool = match imitated_board.find_king(self.turn) {
            Some(king) => imitated_board.is_under_attack(king.col, king.row, self.turn.opposite()),
            None => false,
        };
        if own_king_attacked {
            return Err(MoveError::WouldLeaveKingInCheck);
        }

        Ok(())
    }

    /// Pawn-specific legality: the returned flag reports a push onto the
    /// back rank.
    fn validate_pawn_move(&self, mv: &Move, color: PieceColor) -> (r: Result<bool, MoveError>)
        requires
            mv.spec_in_bounds(),
        ensures
            (r is Ok) == spec_pawn_move_ok(self.board, color, self.history.moves@, *mv),
            r matches Ok(promoting) ==> promoting == (mv.spec_is_pawn_move(color) && (mv.to_row
                == 0 || mv.to_row == 7)),
            r matches Err(e) ==> e == MoveError::InvalidPieceGeometry,
    {
        if mv.is_pawn_move(color) {
            let target_sq = self.board.at(mv.to_col, mv.to_row);
            if target_sq.is_occupied() {
                return Err(MoveError::InvalidPieceGeometry);
            }
            let step2 = if mv.from_row >= mv.to_row {
                mv.from_row - mv.to_row == 2
            } else {
                mv.to_row - mv.from_row == 2
            };
            if step2 {
                let row = if color == PieceColor::White {
                    mv.from_row + 1
                } else {
                    mv.from_row - 1
                };
                let between_sq = self.board.at(mv.from_col, row);
                if between_sq.is_occupied() {
                    return Err(MoveError::InvalidPieceGeometry);
                }
            }
            if mv.to_row == 7 || mv.to_row == 0 {
                Ok(true)
            } else {
                Ok(false)
            }
        } else if mv.is_pawn_capture(color) {
            if let Some(en_passant_pos) = self.board.is_en_passant_move(mv) {
                let expected_from_row: i8 = if color == PieceColor::White {
                    6
                } else {
                    1
                };
                if self.history.moves.len() == 0 {
                    return Err(MoveError::InvalidPieceGeometry);
                }
                let last_move = self.history.moves[self.history.moves.len() - 1];
                if last_move.from_col != mv.to_col || last_move.from_row != expected_from_row
                    || last_move.to_col != en_passant_pos.col || last_move.to_row
                    != en_passant_pos.row {
                    Err(MoveError::InvalidPieceGeometry)
                } else {
                    Ok(false)
                }
            } else {
                Ok(false)
            }
        } else {
            Err(MoveError::InvalidPieceGeometry)
        }
    }

    /// King-specific legality: one step in any direction, or a legal castle.
    fn validate_king_move(&self, mv: &Move) -> (r: Result<(), MoveError>)
        requires
            mv.spec_in_bounds(),
            self.is_check == self.board.spec_is_check(self.turn),
        ensures
            (r is Ok) == (mv.spec_is_regular_king_move() || spec_legal_castle(
                self.board,
                self.turn,
                self.history.moves@,
                *mv,
            )),
    {
        if mv.is_regular_king_move() || self.is_legal_castle_move(mv) {
            Ok(())
        } else {
            Err(MoveError::InvalidPieceGeometry)
        }
    }

    /// Castling rights are never cached: every check rescans the whole
    /// history for a move leaving the king's or the rook's home square.
    fn is_legal_castle_move(&self, mv: &Move) -> (r: bool)
        requires
            mv.spec_in_bounds(),
            self.is_check == self.board.spec_is_check(self.turn),
        ensures
            r == spec_legal_castle(self.board, self.turn, self.history.moves@, *mv),
    {
        let Some((old_rook_pos, new_rook_pos)) = self.board.is_possible_castle_move(mv) else {
            return false;
        };
        if self.is_check {
            return false;
        }

        let ghost history = self.history.moves@;
        let mut k: usize = 0;
        while k < self.history.moves.len()
            invariant
                0 <= k <= history.len(),
                history == self.history.moves@,
                self.board.spec_possible_castle(*mv) == Some((old_rook_pos, new_rook_pos)),
                !self.board.spec_is_check(self.turn),
                forall|j: int|
                    0 <= j < k ==> !((#[trigger] history[j]).from_row == mv.from_row && (
                    history[j].from_col == mv.from_col || history[j].from_col == old_rook_pos.col)),
            decreases history.len() - k,
        {
            let h_mv = self.history.moves[k];
            if h_mv.from_row == mv.from_row && (h_mv.from_col == mv.from_col || h_mv.from_col
                == old_rook_pos.col) {
                proof {
                    assert((#[trigger] history[k as int]).from_row == mv.from_row && (history[
                        k as int
                    ].from_col == mv.from_col || history[k as int].from_col == old_rook_pos.col));
                }
                return false;
            }
            k = k + 1;
        }

        true
    }
}


impl Game {
    /// Starts a fresh game from the standard position, White to move.
    pub fn new() -> (r: Game)
        ensures
            r.wf(),
            forall|col: int, row: int|
                coord_in_bounds(col, row) ==> #[trigger] r.board.spec_at(col, row)
                    == crate::board::spec_start_square(col, row),
            r.turn == PieceColor::White,
            r.history.moves@ =~= Seq::<Move>::empty(),
            r.history.initial_state is None,
            r.history.initial_turn is None,
    {
        let mut game = Game {
            history: GameHistory::new(),
            board: Board::new_chess_game(),
            possible_moves: Vec::new(),
            is_check: false,
            turn: PieceColor::White,
            result: None,
        };
        proof {
            assert(game.board.spec_at(4, 0) == (BoardSquare {
                piece_type: Some(PieceType::King),
                piece_color: PieceColor::White,
            }));
            game.board.lemma_has_king_from_witness(PieceColor::White, 4, 0);
        }
        game.collect_game_state();
        game
    }

    /// Adopts an arbitrary position with the given side to move and an empty
    /// history — castling rights then assume no piece has ever moved.
    /// The position must hold a king of the side to move.
    pub fn from_board(board: Board, turn: PieceColor) -> (r: Game)
        requires
            board.spec_has_king(turn),
        ensures
            r.wf(),
            r.board == board,
            r.turn == turn,
            r.history.moves@ =~= Seq::<Move>::empty(),
            r.history.initial_state is None,
            r.history.initial_turn is None,
    {
        let mut game = Game {
            history: GameHistory::new(),
            board,
            possible_moves: Vec::new(),
            is_check: false,
            turn,
            result: None,
        };
        game.collect_game_state();
        game
    }

    /// Adopts an arbitrary position together with the move log said to have
    /// produced it; castling and en-passant rights are derived from that log.
    pub fn from_board_with_history(board: Board, turn: PieceColor, history: GameHistory) -> (r:
        Game)
        requires
            board.spec_has_king(turn),
        ensures
            r.wf(),
            r.board == board,
            r.turn == turn,
            r.history == history,
    {
        let mut game = Game {
            history,
            board,
            possible_moves: Vec::new(),
            is_check: false,
            turn,
            result: None,
        };
        game.collect_game_state();
        game
    }

    /// Recomputes the check flag and the legal-move list, and concludes the
    /// game if the side to move has no legal move.
    fn collect_game_state(&mut self)
        requires
            old(self).board.spec_has_king(old(self).turn),
            old(self).result is None,
        ensures
            final(self).board == old(self).board,
            final(self).turn == old(self).turn,
            final(self).history == old(self).history,
            final(self).wf(),
    {
        self.is_check = self.board.is_check(self.turn);
        self.collect_possible_moves();
        if self.possible_moves.len() == 0 {
            if self.is_check {
                self.result = Some(GameResult { winner: Some(self.turn.opposite()) });
            } else {
                self.result = Some(GameResult { winner: None });
            }
        }
    }

    /// Validates `mv`, and on success applies it: the board advances, the
    /// move is appended to history, the turn flips, the caches are
    /// recomputed, and the game concludes if the new side to move has no
    /// move. On any error the game is unchanged. Capturing the opponent's
    /// last king is a caller bug (the given precondition), never a legal
    /// game continuation from a well-formed position.
    pub fn make_move(&mut self, mv: &Move) -> (r: Result<(), MoveError>)
        requires
            old(self).wf(),
            (old(self).result is None && spec_validate_move(
                old(self).board,
                old(self).turn,
                old(self).history.moves@,
                *mv,
            ) is Ok) ==> old(self).board.spec_apply_move(*mv).spec_has_king(
                old(self).turn.spec_opposite(),
            ),
        ensures
            final(self).wf(),
            old(self).result is Some ==> r == Err::<(), MoveError>(MoveError::GameAlreadyOver)
                && *final(self) == *old(self),
            old(self).result is None ==> (spec_validate_move(
                old(self).board,
                old(self).turn,
                old(self).history.moves@,
                *mv,
            ) matches Err(e) ==> r == Err::<(), MoveError>(e) && *final(self) == *old(self)),
            (old(self).result is None && spec_validate_move(
                old(self).board,
                old(self).turn,
                old(self).history.moves@,
                *mv,
            ) is Ok) ==> {
                &&& r is Ok
                &&& final(self).board == old(self).board.spec_apply_move(*mv)
                &&& final(self).turn == old(self).turn.spec_opposite()
                &&& final(self).history.moves@ == old(self).history.moves@.push(*mv)
                &&& final(self).history.initial_state == old(self).history.initial_state
                &&& final(self).history.initial_turn == old(self).history.initial_turn
            },
    {
        if self.result.is_some() {
            return Err(MoveError::GameAlreadyOver);
        }

        if let Err(e) = self.validate_move(mv) {
            return Err(e);
        }

        self.board.make_move(mv);
        self.history.moves.push(*mv);
        self.turn = self.turn.opposite();
        self.collect_game_state();

        Ok(())
    }
}


/// A predicate that holds exactly on one contiguous run of a sequence makes
/// `filter` that run.
proof fn lemma_filter_run(s: Seq<Move>, pred: spec_fn(Move) -> bool, a: int, b: int)
    requires
        0 <= a <= b <= s.len(),
        forall|i: int| 0 <= i < s.len() ==> (#[trigger] pred(s[i]) <==> a <= i < b),
    ensures
        s.filter(pred) == s.subrange(a, b),
    decreases s.len(),
{
    reveal(Seq::filter);
    if s.len() == 0 {
        assert(s.filter(pred) =~= s.subrange(a, b));
    } else {
        let rest = s.drop_last();
        if b == s.len() && a < b {
            assert(pred(s[s.len() - 1]));
            lemma_filter_run(rest, pred, a, b - 1);
            assert(s.filter(pred) =~= s.subrange(a, b));
        } else {
            assert(!pred(s[s.len() - 1]));
            if a == b {
                lemma_filter_run(rest, pred, 0, 0);
                assert(s.filter(pred) =~= s.subrange(a, b));
            } else {
                lemma_filter_run(rest, pred, a, b);
                assert(s.subrange(a, b) =~= rest.subrange(a, b));
                assert(s.filter(pred) =~= s.subrange(a, b));
            }
        }
    }
}

impl Game {
    /// The cached legal moves whose origin is (col, row), in cache order: the
    /// contiguous run of the sorted whole-board list.
    pub fn get_moves_from(&self, col: i8, row: i8) -> (r: &[Move])
        requires
            spec_moves_sorted(self.possible_moves@),
        ensures
            r@ == self.possible_moves@.filter(
                |m: Move| m.from_col == col && m.from_row == row,
            ),
    {
        let ghost pm = self.possible_moves@;
        let mut from: usize = 0;
        while from < self.possible_moves.len() && (self.possible_moves[from].from_col < col
            || self.possible_moves[from].from_row < row)
            invariant
                pm == self.possible_moves@,
                0 <= from <= pm.len(),
                forall|i: int|
                    0 <= i < from ==> !((#[trigger] pm[i]).from_col == col && pm[i].from_row
                        == row),
            decreases pm.len() - from,
        {
            from = from + 1;
        }
        let mut to: usize = from;
        while to < self.possible_moves.len() && self.possible_moves[to].from_col == col
            && self.possible_moves[to].from_row == row
            invariant
                pm == self.possible_moves@,
                0 <= from <= to <= pm.len(),
                forall|i: int|
                    from <= i < to ==> ((#[trigger] pm[i]).from_col == col && pm[i].from_row
                        == row),
                forall|i: int|
                    0 <= i < from ==> !((#[trigger] pm[i]).from_col == col && pm[i].from_row
                        == row),
            decreases pm.len() - to,
        {
            to = to + 1;
        }
        proof {
            let pred = |m: Move| m.from_col == col && m.from_row == row;
            assert forall|i: int| 0 <= i < pm.len() implies (#[trigger] pred(pm[i]) <==> from <= i
                < to) by {
                if i >= to {
                    if to > from {
                        assert(pm[to - 1].from_col == col && pm[to - 1].from_row == row);
                        if i > to {
                            assert(spec_moves_sorted(pm));
                        }
                    }
                }
            }
            lemma_filter_run(pm, pred, from as int, to as int);
        }
        vstd::slice::slice_subrange(self.possible_moves.as_slice(), from, to)
    }

    /// The cached legal moves out of the given square.
    pub fn get_moves_from_pos(&self, pos: Pos) -> (r: &[Move])
        requires
            spec_moves_sorted(self.possible_moves@),
        ensures
            r@ == self.possible_moves@.filter(
                |m: Move| m.from_col == pos.col && m.from_row == pos.row,
            ),
    {
        self.get_moves_from(pos.col, pos.row)
    }
}

} // verus!
