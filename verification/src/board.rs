//! The 64-square board: piece placement, square access, and the geometric
//! primitives behind move legality (blocked paths, capture shapes, attack
//! scans, en-passant and castle detection) plus unconditional move
//! application. The board knows nothing of turn order or history.
use vstd::prelude::*;

use crate::moves::{abs_diff, Move};
use crate::pos::{coord_in_bounds, Pos};

verus! {

#[derive(Copy, Clone, PartialEq, Eq, Structural, Debug)]
pub enum PieceType {
    Pawn,
    Bishop,
    Knight,
    Rook,
    Queen,
    King,
}

impl PieceType {
    /// A pawn may promote only to a bishop, knight, rook or queen.
    pub open spec fn spec_is_valid_for_promotion(self) -> bool {
        match self {
            PieceType::Pawn | PieceType::King => false,
            _ => true,
        }
    }

    pub fn is_valid_for_promotion(&self) -> (r: bool)
        ensures
            r == self.spec_is_valid_for_promotion(),
    {
        match self {
            PieceType::Pawn | PieceType::King => false,
            PieceType::Bishop | PieceType::Knight | PieceType::Rook | PieceType::Queen => true,
        }
    }
}

#[derive(Copy, Clone, PartialEq, Eq, Structural, Debug)]
pub enum PieceColor {
    White,
    Black,
}

impl PieceColor {
    pub open spec fn spec_opposite(self) -> PieceColor {
        match self {
            PieceColor::White => PieceColor::Black,
            PieceColor::Black => PieceColor::White,
        }
    }

    pub fn opposite(&self) -> (r: PieceColor)
        ensures
            r == self.spec_opposite(),
    {
        match self {
            PieceColor::White => PieceColor::Black,
            PieceColor::Black => PieceColor::White,
        }
    }
}

/// One square: either empty or holding exactly one piece of one color.
/// An empty square keeps the canonical color `White` so that squares (and
/// whole boards) compare equal structurally.
#[derive(Copy, Clone, PartialEq, Eq, Structural, Debug)]
pub struct BoardSquare {
    pub piece_type: Option<PieceType>,
    pub piece_color: PieceColor,
}

impl BoardSquare {
    pub open spec fn spec_empty() -> BoardSquare {
        BoardSquare { piece_type: None, piece_color: PieceColor::White }
    }

    /// An empty square in canonical form (color `White`).
    pub open spec fn spec_is_canonical(self) -> bool {
        self.piece_type is None ==> self.piece_color == PieceColor::White
    }

    pub open spec fn spec_is_empty(self) -> bool {
        self.piece_type is None
    }

    pub open spec fn spec_is_occupied(self) -> bool {
        self.piece_type is Some
    }

    pub open spec fn spec_occupied_by(self, color: PieceColor) -> bool {
        self.piece_type is Some && self.piece_color == color
    }

    pub open spec fn spec_piece(self) -> Option<(PieceType, PieceColor)> {
        match self.piece_type {
            Some(t) => Some((t, self.piece_color)),
            None => None,
        }
    }

    pub fn empty() -> (r: BoardSquare)
        ensures
            r == BoardSquare::spec_empty(),
    {
        BoardSquare { piece_type: None, piece_color: PieceColor::White }
    }

    pub fn with(piece_type: PieceType, piece_color: PieceColor) -> (r: BoardSquare)
        ensures
            r == (BoardSquare { piece_type: Some(piece_type), piece_color }),
    {
        BoardSquare { piece_type: Some(piece_type), piece_color }
    }

    pub fn piece_type(&self) -> (r: Option<PieceType>)
        ensures
            r == self.piece_type,
    {
        self.piece_type
    }

    pub fn piece_color(&self) -> (r: PieceColor)
        ensures
            r == self.piece_color,
    {
        self.piece_color
    }

    pub fn is_empty(&self) -> (r: bool)
        ensures
            r == self.spec_is_empty(),
    {
        self.piece_type.is_none()
    }

    pub fn is_occupied(&self) -> (r: bool)
        ensures
            r == self.spec_is_occupied(),
    {
        self.piece_type.is_some()
    }

    pub fn is_occupied_by_color(&self, color: PieceColor) -> (r: bool)
        ensures
            r == self.spec_occupied_by(color),
    {
        match self.piece_type {
            Some(_) => self.piece_color == color,
            None => false,
        }
    }

    pub fn piece(&self) -> (r: Option<(PieceType, PieceColor)>)
        ensures
            r == self.spec_piece(),
    {
        match self.piece_type {
            Some(piece_type) => Some((piece_type, self.piece_color)),
            None => None,
        }
    }
}

/// A full board: 64 squares stored row-major, rank 1 (`row` 0) first.
/// A pure value: assignment takes a full independent snapshot, which is how
/// "what if" simulation works — no undo logic exists anywhere.
#[derive(Copy, Clone, PartialEq, Eq, Debug)]
pub struct Board {
    pub squares: [BoardSquare; 64],
}

impl Board {
    /// The square at (col, row); the board's mathematical reading.
    pub open spec fn spec_at(self, col: int, row: int) -> BoardSquare {
        self.squares@[row * 8 + col]
    }

    /// Every empty square is in canonical form, so boards that hold the same
    /// pieces are equal as values.
    pub open spec fn spec_canonical(self) -> bool {
        forall|col: int, row: int|
            coord_in_bounds(col, row) ==> (#[trigger] self.spec_at(col, row)).spec_is_canonical()
    }

    pub open spec fn spec_all_empty(self) -> bool {
        forall|col: int, row: int|
            coord_in_bounds(col, row) ==> (#[trigger] self.spec_at(col, row))
                == BoardSquare::spec_empty()
    }

    pub fn empty() -> (r: Board)
        ensures
            r == spec_empty_board(),
            r.spec_all_empty(),
            r.spec_canonical(),
    {
        let board = Board { squares: [BoardSquare { piece_type: None, piece_color: PieceColor::White }; 64] };
        proof {
            assert forall|col: int, row: int| coord_in_bounds(col, row) implies (
            #[trigger] board.spec_at(col, row)) == BoardSquare::spec_empty() by {
                assert(0 <= row * 8 + col < 64) by (nonlinear_arith)
                    requires
                        0 <= col < 8,
                        0 <= row < 8,
                ;
            }
        }
        board
    }

    fn get_index(col: i8, row: i8) -> (r: usize)
        requires
            coord_in_bounds(col as int, row as int),
        ensures
            r == row * 8 + col,
            r < 64,
    {
        (row * 8 + col) as usize
    }

    pub fn at(&self, col: i8, row: i8) -> (r: &BoardSquare)
        requires
            coord_in_bounds(col as int, row as int),
        ensures
            *r == self.spec_at(col as int, row as int),
    {
        &self.squares[Self::get_index(col, row)]
    }

    pub fn at_mut(&mut self, col: i8, row: i8) -> (r: &mut BoardSquare)
        requires
            coord_in_bounds(col as int, row as int),
        ensures
            *r == old(self).spec_at(col as int, row as int),
            final(self).squares@ == old(self).squares@.update(
                row as int * 8 + col as int,
                *final(r),
            ),
    {
        let idx = Self::get_index(col, row);
        &mut self.squares[idx]
    }

    pub fn set(&mut self, col: i8, row: i8, piece: PieceType, color: PieceColor)
        requires
            coord_in_bounds(col as int, row as int),
        ensures
            final(self).squares@ == old(self).squares@.update(
                row as int * 8 + col as int,
                BoardSquare { piece_type: Some(piece), piece_color: color },
            ),
            final(self).spec_at(col as int, row as int) == (BoardSquare {
                piece_type: Some(piece),
                piece_color: color,
            }),
            forall|c: int, r: int|
                coord_in_bounds(c, r) && (c != col || r != row) ==> #[trigger] final(self).spec_at(
                    c,
                    r,
                ) == old(self).spec_at(c, r),
    {
        let target = self.at_mut(col, row);
        *target = BoardSquare::with(piece, color);
        proof {
            lemma_index_injective(col as int, row as int);
        }
    }

    pub fn set_at_pos(&mut self, pos: &Pos, piece: PieceType, color: PieceColor)
        requires
            pos.spec_in_bounds(),
        ensures
            final(self).squares@ == old(self).squares@.update(
                pos.row as int * 8 + pos.col as int,
                BoardSquare { piece_type: Some(piece), piece_color: color },
            ),
            final(self).spec_at(pos.col as int, pos.row as int) == (BoardSquare {
                piece_type: Some(piece),
                piece_color: color,
            }),
            forall|c: int, r: int|
                coord_in_bounds(c, r) && (c != pos.col || r != pos.row)
                    ==> #[trigger] final(self).spec_at(c, r) == old(self).spec_at(c, r),
    {
        self.set(pos.col, pos.row, piece, color);
    }

    pub fn clear_square(&mut self, col: i8, row: i8)
        requires
            coord_in_bounds(col as int, row as int),
        ensures
            final(self).squares@ == old(self).squares@.update(
                row as int * 8 + col as int,
                BoardSquare::spec_empty(),
            ),
            final(self).spec_at(col as int, row as int) == BoardSquare::spec_empty(),
            forall|c: int, r: int|
                coord_in_bounds(c, r) && (c != col || r != row) ==> #[trigger] final(self).spec_at(
                    c,
                    r,
                ) == old(self).spec_at(c, r),
    {
        let target = self.at_mut(col, row);
        *target = BoardSquare::empty();
        proof {
            lemma_index_injective(col as int, row as int);
        }
    }

    /// The standard chess starting position.
    pub fn new_chess_game() -> (r: Board)
        ensures
            forall|col: int, row: int|
                coord_in_bounds(col, row) ==> #[trigger] r.spec_at(col, row) == spec_start_square(
                    col,
                    row,
                ),
            r.spec_canonical(),
    {
        let mut board = Board::empty();

        board.set(0, 0, PieceType::Rook, PieceColor::White);
        board.set(1, 0, PieceType::Knight, PieceColor::White);
        board.set(2, 0, PieceType::Bishop, PieceColor::White);
        board.set(3, 0, PieceType::Queen, PieceColor::White);
        board.set(4, 0, PieceType::King, PieceColor::White);
        board.set(5, 0, PieceType::Bishop, PieceColor::White);
        board.set(6, 0, PieceType::Knight, PieceColor::White);
        board.set(7, 0, PieceType::Rook, PieceColor::White);

        let mut i: i8 = 0;
        while i < 8
            invariant
                0 <= i <= 8,
                forall|col: int|
                    0 <= col < 8 ==> #[trigger] board.spec_at(col, 0) == spec_start_square(col, 0),
                forall|col: int| 0 <= col < i ==> board.spec_at(col, 1) == spec_start_square(col, 1),
                forall|col: int, row: int|
                    coord_in_bounds(col, row) && row >= 2 ==> #[trigger] board.spec_at(col, row)
                        == BoardSquare::spec_empty(),
                forall|col: int| i <= col < 8 ==> board.spec_at(col, 1) == BoardSquare::spec_empty(),
            decreases 8 - i,
        {
            board.set(i, 1, PieceType::Pawn, PieceColor::White);
            i = i + 1;
        }

        let mut i: i8 = 0;
        while i < 8
            invariant
                0 <= i <= 8,
                forall|col: int, row: int|
                    coord_in_bounds(col, row) && row <= 1 ==> #[trigger] board.spec_at(col, row)
                        == spec_start_square(col, row),
                forall|col: int| 0 <= col < i ==> board.spec_at(col, 6) == spec_start_square(col, 6),
                forall|col: int, row: int|
                    coord_in_bounds(col, row) && row >= 2 && !(row == 6 && col < i)
                        ==> #[trigger] board.spec_at(col, row) == BoardSquare::spec_empty(),
            decreases 8 - i,
        {
            board.set(i, 6, PieceType::Pawn, PieceColor::Black);
            i = i + 1;
        }

        board.set(0, 7, PieceType::Rook, PieceColor::Black);
        board.set(1, 7, PieceType::Knight, PieceColor::Black);
        board.set(2, 7, PieceType::Bishop, PieceColor::Black);
        board.set(3, 7, PieceType::Queen, PieceColor::Black);
        board.set(4, 7, PieceType::King, PieceColor::Black);
        board.set(5, 7, PieceType::Bishop, PieceColor::Black);
        board.set(6, 7, PieceType::Knight, PieceColor::Black);
        board.set(7, 7, PieceType::Rook, PieceColor::Black);

        proof {
            assert forall|col: int, row: int| coord_in_bounds(col, row) implies (
            #[trigger] board.spec_at(col, row)) == spec_start_square(col, row) by {}
        }
        board
    }

    /// Contract-assertion helper: callers must already know the coordinate is
    /// on the board; out-of-range coordinates are a caller bug, not an error.
    pub fn panic_if_out_of_bounds(col: i8, row: i8)
        requires
            coord_in_bounds(col as int, row as int),
    {
    }
}

/// The board with every square empty.
pub open spec fn spec_empty_board() -> Board {
    Board { squares: vstd::array::spec_array_fill_for_copy_type(BoardSquare::spec_empty()) }
}

/// The piece (if any) on (col, row) in the standard starting position.
pub open spec fn spec_start_square(col: int, row: int) -> BoardSquare {
    let piece: Option<PieceType> = if row == 1 || row == 6 {
        Some(PieceType::Pawn)
    } else if row == 0 || row == 7 {
        if col == 0 || col == 7 {
            Some(PieceType::Rook)
        } else if col == 1 || col == 6 {
            Some(PieceType::Knight)
        } else if col == 2 || col == 5 {
            Some(PieceType::Bishop)
        } else if col == 3 {
            Some(PieceType::Queen)
        } else {
            Some(PieceType::King)
        }
    } else {
        None
    };
    match piece {
        Some(t) => BoardSquare {
            piece_type: Some(t),
            piece_color: if row <= 1 { PieceColor::White } else { PieceColor::Black },
        },
        None => BoardSquare::spec_empty(),
    }
}

impl Board {
    /// The board with one square replaced.
    pub open spec fn spec_with_square(self, col: int, row: int, sq: BoardSquare) -> Board {
        Board { squares: vstd::array::spec_array_update(self.squares, row * 8 + col, sq) }
    }

    /// A straight move passes over an occupied square strictly between its
    /// endpoints.
    pub open spec fn spec_blocked_straight(self, m: Move) -> bool {
        if m.from_row == m.to_row {
            exists|c: int|
                spec_min(m.from_col as int, m.to_col as int) < c < spec_max(
                    m.from_col as int,
                    m.to_col as int,
                ) && (#[trigger] self.spec_at(c, m.from_row as int)).spec_is_occupied()
        } else {
            exists|r: int|
                spec_min(m.from_row as int, m.to_row as int) < r < spec_max(
                    m.from_row as int,
                    m.to_row as int,
                ) && (#[trigger] self.spec_at(m.from_col as int, r)).spec_is_occupied()
        }
    }

    /// The i-th square along the diagonal from the move's source toward its
    /// destination is occupied.
    pub open spec fn spec_occupied_on_diagonal(self, m: Move, i: int) -> bool {
        let sc: int = if m.to_col > m.from_col {
            1
        } else {
            -1
        };
        let sr: int = if m.to_row > m.from_row {
            1
        } else {
            -1
        };
        self.spec_at(m.from_col + i * sc, m.from_row + i * sr).spec_is_occupied()
    }

    /// A diagonal move passes over an occupied square strictly between its
    /// endpoints.
    pub open spec fn spec_blocked_diagonal(self, m: Move) -> bool {
        exists|i: int|
            1 <= i < abs_diff(m.from_col as int, m.to_col as int)
                && #[trigger] self.spec_occupied_on_diagonal(m, i)
    }

    /// Rook capture geometry: a straight line with nothing strictly between.
    pub open spec fn spec_possible_rook_capture(self, m: Move) -> bool {
        m.spec_is_straight() && !self.spec_blocked_straight(m)
    }

    /// Bishop capture geometry: a diagonal line with nothing strictly between.
    pub open spec fn spec_possible_bishop_capture(self, m: Move) -> bool {
        m.spec_is_diagonal() && !self.spec_blocked_diagonal(m)
    }

    pub open spec fn spec_possible_queen_capture(self, m: Move) -> bool {
        self.spec_possible_rook_capture(m) || self.spec_possible_bishop_capture(m)
    }

    /// The square of the pawn an en-passant capture removes: the move is a
    /// pawn's diagonal capture onto an empty square, and the captured pawn
    /// stands on the destination file at the source rank. History is not
    /// consulted here.
    pub open spec fn spec_en_passant_target(self, m: Move) -> Option<Pos> {
        let sq = self.spec_at(m.from_col as int, m.from_row as int);
        if sq.piece_type != Some(PieceType::Pawn) {
            None
        } else if !m.spec_is_pawn_capture(sq.piece_color) {
            None
        } else if self.spec_at(m.to_col as int, m.to_row as int).spec_is_occupied() {
            None
        } else {
            Some(Pos { col: m.to_col, row: m.from_row })
        }
    }

    /// Castle shape: a king on its home square moving two files along its
    /// home rank. Returns the rook's square before and after the castle.
    /// Ignores history, blocking pieces and attacked squares.
    pub open spec fn spec_castle_rook(self, m: Move) -> Option<(Pos, Pos)> {
        if (m.from_row != 0 && m.from_row != 7) || m.from_col != 4 {
            None
        } else if m.to_row != m.from_row {
            None
        } else {
            match self.spec_at(m.from_col as int, m.from_row as int).spec_piece() {
                None => None,
                Some((piece_type, piece_color)) => if piece_type != PieceType::King {
                    None
                } else if piece_color == PieceColor::White && m.from_row != 0 {
                    None
                } else if piece_color == PieceColor::Black && m.from_row != 7 {
                    None
                } else if m.to_col != 6 && m.to_col != 2 {
                    None
                } else {
                    let rook_col: i8 = if m.to_col == 6 {
                        7
                    } else {
                        0
                    };
                    let new_rook_col: i8 = if m.to_col == 6 {
                        5
                    } else {
                        3
                    };
                    Some(
                        (
                            Pos { col: rook_col, row: m.from_row },
                            Pos { col: new_rook_col, row: m.from_row },
                        ),
                    )
                },
            }
        }
    }

    /// Castle shape plus: a same-colored rook on its home square, the squares
    /// strictly between king and rook empty, and no square the king starts
    /// on, crosses or lands on attacked by the opponent. Whether king or rook
    /// moved before is history's business, not the board's.
    pub open spec fn spec_possible_castle(self, m: Move) -> Option<(Pos, Pos)> {
        match self.spec_castle_rook(m) {
            None => None,
            Some((rook_pos, new_rook_pos)) => {
                let king_color = self.spec_at(m.from_col as int, m.from_row as int).piece_color;
                match self.spec_at(rook_pos.col as int, rook_pos.row as int).spec_piece() {
                    None => None,
                    Some((piece_type, piece_color)) => if piece_type != PieceType::Rook
                        || piece_color != king_color {
                        None
                    } else if exists|c: int|
                        spec_castle_attack_lo(m.to_col as int) <= c <= spec_castle_attack_hi(
                            m.to_col as int,
                        ) && self.spec_under_attack(
                            c,
                            m.from_row as int,
                            king_color.spec_opposite(),
                        ) {
                        None
                    } else if exists|c: int|
                        spec_castle_empty_lo(m.to_col as int) <= c <= spec_castle_empty_hi(
                            m.to_col as int,
                        ) && (#[trigger] self.spec_at(c, m.from_row as int)).spec_is_occupied() {
                        None
                    } else {
                        Some((rook_pos, new_rook_pos))
                    },
                }
            },
        }
    }

    /// The piece on (col, row) attacks (target_col, target_row) by its
    /// single-capture pattern: pawns by their diagonal capture shape, knights
    /// and kings by their offset shapes, sliders by an unblocked line.
    pub open spec fn spec_attacks(
        self,
        col: int,
        row: int,
        target_col: int,
        target_row: int,
    ) -> bool {
        let sq = self.spec_at(col, row);
        let m = Move {
            from_col: col as i8,
            from_row: row as i8,
            to_col: target_col as i8,
            to_row: target_row as i8,
            promotion_to: None,
        };
        match sq.piece_type {
            None => false,
            Some(piece) => match piece {
                PieceType::Pawn => m.spec_is_pawn_capture(sq.piece_color),
                PieceType::Bishop => self.spec_possible_bishop_capture(m),
                PieceType::Knight => m.spec_is_knight_move(),
                PieceType::Rook => self.spec_possible_rook_capture(m),
                PieceType::Queen => self.spec_possible_queen_capture(m),
                PieceType::King => m.spec_is_regular_king_move(),
            },
        }
    }

    /// Some piece of `attacking_color` attacks the target square.
    pub open spec fn spec_under_attack(
        self,
        target_col: int,
        target_row: int,
        attacking_color: PieceColor,
    ) -> bool {
        exists|c: int, r: int|
            coord_in_bounds(c, r) && (#[trigger] self.spec_at(c, r)).spec_occupied_by(
                attacking_color,
            ) && self.spec_attacks(c, r, target_col, target_row)
    }

    /// The first square, scanning files a..h and within a file ranks 1..8,
    /// holding a king of the given color; starts the scan at (col, row).
    pub open spec fn spec_first_king_from(
        self,
        king_color: PieceColor,
        col: int,
        row: int,
    ) -> Option<Pos>
        decreases 8 - col, 8 - row,
    {
        if col < 0 || row < 0 || col >= 8 {
            None
        } else if row >= 8 {
            self.spec_first_king_from(king_color, col + 1, 0)
        } else if self.spec_at(col, row) == (BoardSquare {
            piece_type: Some(PieceType::King),
            piece_color: king_color,
        }) {
            Some(Pos { col: col as i8, row: row as i8 })
        } else {
            self.spec_first_king_from(king_color, col, row + 1)
        }
    }

    pub open spec fn spec_find_king(self, king_color: PieceColor) -> Option<Pos> {
        self.spec_first_king_from(king_color, 0, 0)
    }

    pub open spec fn spec_has_king(self, king_color: PieceColor) -> bool {
        self.spec_find_king(king_color) is Some
    }

    /// The given color's (first) king stands attacked by the opposite color.
    /// Meaningful only on boards that hold such a king.
    pub open spec fn spec_is_check(self, king_color: PieceColor) -> bool {
        match self.spec_find_king(king_color) {
            Some(king) => self.spec_under_attack(
                king.col as int,
                king.row as int,
                king_color.spec_opposite(),
            ),
            None => false,
        }
    }

    /// The board after applying `m` unconditionally: the moving piece (or its
    /// promotion) lands on the destination, the source empties, an en-passant
    /// capture removes the captured pawn, and a castle relocates the rook.
    pub open spec fn spec_apply_move(self, m: Move) -> Board {
        let sq = self.spec_at(m.from_col as int, m.from_row as int);
        let piece_type = match m.promotion_to {
            Some(promotion) => promotion,
            None => sq.piece_type->Some_0,
        };
        let moved = self.spec_with_square(
            m.from_col as int,
            m.from_row as int,
            BoardSquare::spec_empty(),
        ).spec_with_square(
            m.to_col as int,
            m.to_row as int,
            BoardSquare { piece_type: Some(piece_type), piece_color: sq.piece_color },
        );
        let after_en_passant = match self.spec_en_passant_target(m) {
            Some(captured) => moved.spec_with_square(
                captured.col as int,
                captured.row as int,
                BoardSquare::spec_empty(),
            ),
            None => moved,
        };
        match self.spec_castle_rook(m) {
            Some((old_rook, new_rook)) => after_en_passant.spec_with_square(
                old_rook.col as int,
                old_rook.row as int,
                BoardSquare::spec_empty(),
            ).spec_with_square(
                new_rook.col as int,
                new_rook.row as int,
                BoardSquare { piece_type: Some(PieceType::Rook), piece_color: sq.piece_color },
            ),
            None => after_en_passant,
        }
    }
}

impl Board {
    /// Geometric rook-capture legality; colors and checks are the caller's
    /// business.
    pub fn is_possible_rook_capture(&self, mv: &Move) -> (r: bool)
        requires
            mv.spec_in_bounds(),
        ensures
            r == self.spec_possible_rook_capture(*mv),
    {
        mv.is_straight() && !self.is_move_over_pieces_straight(mv)
    }

    pub fn is_possible_bishop_capture(&self, mv: &Move) -> (r: bool)
        requires
            mv.spec_in_bounds(),
        ensures
            r == self.spec_possible_bishop_capture(*mv),
    {
        mv.is_diagonal() && !self.is_move_over_pieces_diagonal(mv)
    }

    pub fn is_possible_queen_capture(&self, mv: &Move) -> (r: bool)
        requires
            mv.spec_in_bounds(),
        ensures
            r == self.spec_possible_queen_capture(*mv),
    {
        self.is_possible_rook_capture(mv) || self.is_possible_bishop_capture(mv)
    }

    /// True if a piece stands strictly between the endpoints of a straight
    /// move.
    pub fn is_move_over_pieces_straight(&self, mv: &Move) -> (r: bool)
        requires
            mv.spec_is_straight(),
            mv.spec_in_bounds(),
        ensures
            r == self.spec_blocked_straight(*mv),
    {
        let is_moving_horizontally = mv.from_row == mv.to_row;

        if is_moving_horizontally {
            let lo = if mv.from_col <= mv.to_col {
                mv.from_col
            } else {
                mv.to_col
            };
            let hi = if mv.from_col >= mv.to_col {
                mv.from_col
            } else {
                mv.to_col
            };
            let mut col = lo + 1;
            while col < hi
                invariant
                    mv.spec_in_bounds(),
                    mv.from_row == mv.to_row,
                    lo == spec_min(mv.from_col as int, mv.to_col as int),
                    hi == spec_max(mv.from_col as int, mv.to_col as int),
                    lo < col <= spec_max(hi as int, lo + 1),
                    forall|c: int|
                        lo < c < col ==> !(#[trigger] self.spec_at(
                            c,
                            mv.from_row as int,
                        )).spec_is_occupied(),
                decreases hi - col,
            {
                if self.at(col, mv.from_row).is_occupied() {
                    return true;
                }
                col = col + 1;
            }
            false
        } else {
            let lo = if mv.from_row <= mv.to_row {
                mv.from_row
            } else {
                mv.to_row
            };
            let hi = if mv.from_row >= mv.to_row {
                mv.from_row
            } else {
                mv.to_row
            };
            let mut row = lo + 1;
            while row < hi
                invariant
                    mv.spec_in_bounds(),
                    mv.from_row != mv.to_row,
                    mv.from_col == mv.to_col,
                    lo == spec_min(mv.from_row as int, mv.to_row as int),
                    hi == spec_max(mv.from_row as int, mv.to_row as int),
                    lo < row <= spec_max(hi as int, lo + 1),
                    forall|r: int|
                        lo < r < row ==> !(#[trigger] self.spec_at(
                            mv.from_col as int,
                            r,
                        )).spec_is_occupied(),
                decreases hi - row,
            {
                if self.at(mv.from_col, row).is_occupied() {
                    return true;
                }
                row = row + 1;
            }
            false
        }
    }

    /// True if a piece stands strictly between the endpoints of a diagonal
    /// move.
    fn is_move_over_pieces_diagonal(&self, mv: &Move) -> (r: bool)
        requires
            mv.spec_is_diagonal(),
            mv.spec_in_bounds(),
        ensures
            r == self.spec_blocked_diagonal(*mv),
    {
        let col_step_up = mv.to_col > mv.from_col;
        let row_step_up = mv.to_row > mv.from_row;
        let dist = if mv.from_col >= mv.to_col {
            mv.from_col - mv.to_col
        } else {
            mv.to_col - mv.from_col
        };

        let ghost sc: int = if mv.to_col > mv.from_col {
            1
        } else {
            -1
        };
        let ghost sr: int = if mv.to_row > mv.from_row {
            1
        } else {
            -1
        };

        let mut i: i8 = 1;
        while i < dist
            invariant
                mv.spec_in_bounds(),
                mv.spec_is_diagonal(),
                dist == abs_diff(mv.from_col as int, mv.to_col as int),
                sc == (if mv.to_col > mv.from_col {
                    1int
                } else {
                    -1
                }),
                sr == (if mv.to_row > mv.from_row {
                    1int
                } else {
                    -1
                }),
                col_step_up == (mv.to_col > mv.from_col),
                row_step_up == (mv.to_row > mv.from_row),
                1 <= i <= spec_max(dist as int, 1),
                forall|j: int| 1 <= j < i ==> !(#[trigger] self.spec_occupied_on_diagonal(*mv, j)),
            decreases dist - i,
        {
            let col = if col_step_up {
                mv.from_col + i
            } else {
                mv.from_col - i
            };
            let row = if row_step_up {
                mv.from_row + i
            } else {
                mv.from_row - i
            };
            proof {
                if col_step_up {
                    assert(i * sc == i) by (nonlinear_arith)
                        requires
                            sc == 1,
                    ;
                } else {
                    assert(i * sc == -i) by (nonlinear_arith)
                        requires
                            sc == -1,
                    ;
                }
                if row_step_up {
                    assert(i * sr == i) by (nonlinear_arith)
                        requires
                            sr == 1,
                    ;
                } else {
                    assert(i * sr == -i) by (nonlinear_arith)
                        requires
                            sr == -1,
                    ;
                }
                assert(col == mv.from_col + i * sc);
                assert(row == mv.from_row + i * sr);
            }
            if self.at(col, row).is_occupied() {
                proof {
                    assert(self.spec_occupied_on_diagonal(*mv, i as int));
                }
                return true;
            }
            proof {
                assert(!self.spec_occupied_on_diagonal(*mv, i as int));
            }
            i = i + 1;
        }
        false
    }

    /// Recognises an en-passant capture shape and names the captured pawn's
    /// square (destination file, source rank). History is not consulted.
    pub fn is_en_passant_move(&self, mv: &Move) -> (r: Option<Pos>)
        requires
            mv.spec_in_bounds(),
        ensures
            r == self.spec_en_passant_target(*mv),
    {
        let sq = self.at(mv.from_col, mv.from_row);
        if sq.piece_type() != Some(PieceType::Pawn) {
            return None;
        }
        if !mv.is_pawn_capture(sq.piece_color()) {
            return None;
        }
        let captured_sq = self.at(mv.to_col, mv.to_row);
        if captured_sq.is_occupied() {
            return None;
        }
        Some(Pos::new(mv.to_col, mv.from_row))
    }

    /// Recognises the castle shape (king two files from its home square) and
    /// names the rook's squares before and after. No history, no safety.
    pub fn is_castle_move(&self, mv: &Move) -> (r: Option<(Pos, Pos)>)
        requires
            mv.spec_in_bounds(),
        ensures
            r == self.spec_castle_rook(*mv),
    {
        if (mv.from_row != 0 && mv.from_row != 7) || mv.from_col != 4 {
            return None;
        }
        if mv.to_row != mv.from_row {
            return None;
        }
        let square = self.at(mv.from_col, mv.from_row);
        let Some((piece_type, piece_color)) = square.piece() else {
            return None;
        };
        if piece_type != PieceType::King {
            return None;
        }
        if piece_color == PieceColor::White && mv.from_row != 0 {
            return None;
        }
        if piece_color == PieceColor::Black && mv.from_row != 7 {
            return None;
        }
        if mv.to_col != 6 && mv.to_col != 2 {
            return None;
        }

        let rook_col: i8 = if mv.to_col == 6 {
            7
        } else {
            0
        };
        let new_rook_col: i8 = if mv.to_col == 6 {
            5
        } else {
            3
        };
        Some((Pos::new(rook_col, mv.from_row), Pos::new(new_rook_col, mv.from_row)))
    }

    /// The castle shape plus rook presence, an empty corridor, and no
    /// attacked square among those the king starts on, crosses or lands on.
    pub fn is_possible_castle_move(&self, mv: &Move) -> (r: Option<(Pos, Pos)>)
        requires
            mv.spec_in_bounds(),
        ensures
            r == self.spec_possible_castle(*mv),
    {
        let Some((rook_pos, new_rook_pos)) = self.is_castle_move(mv) else {
            return None;
        };
        let king_color = self.at(mv.from_col, mv.from_row).piece_color();

        let Some((piece_type, piece_color)) = self.at(rook_pos.col, rook_pos.row).piece() else {
            return None;
        };
        if piece_type != PieceType::Rook || piece_color != king_color {
            return None;
        }

        let attack_lo: i8 = if mv.to_col == 6 {
            4
        } else {
            2
        };
        let attack_hi: i8 = if mv.to_col == 6 {
            6
        } else {
            4
        };
        let empty_lo: i8 = if mv.to_col == 6 {
            5
        } else {
            1
        };
        let empty_hi: i8 = if mv.to_col == 6 {
            6
        } else {
            3
        };

        let mut col = attack_lo;
        while col <= attack_hi
            invariant
                mv.spec_in_bounds(),
                attack_lo == spec_castle_attack_lo(mv.to_col as int),
                attack_hi == spec_castle_attack_hi(mv.to_col as int),
                attack_lo <= col <= attack_hi + 1,
                king_color == self.spec_at(mv.from_col as int, mv.from_row as int).piece_color,
                forall|c: int|
                    attack_lo <= c < col ==> !self.spec_under_attack(
                        c,
                        mv.from_row as int,
                        king_color.spec_opposite(),
                    ),
            decreases attack_hi + 1 - col,
        {
            if self.is_under_attack(col, mv.from_row, king_color.opposite()) {
                return None;
            }
            col = col + 1;
        }

        let mut col = empty_lo;
        while col <= empty_hi
            invariant
                mv.spec_in_bounds(),
                empty_lo == spec_castle_empty_lo(mv.to_col as int),
                empty_hi == spec_castle_empty_hi(mv.to_col as int),
                empty_lo <= col <= empty_hi + 1,
                forall|c: int|
                    empty_lo <= c < col ==> !(#[trigger] self.spec_at(
                        c,
                        mv.from_row as int,
                    )).spec_is_occupied(),
            decreases empty_hi + 1 - col,
        {
            if self.at(col, mv.from_row).is_occupied() {
                return None;
            }
            col = col + 1;
        }

        Some((rook_pos, new_rook_pos))
    }

    /// Scans all 64 squares for a piece of `attacking_color` whose capture
    /// pattern reaches the target square.
    pub fn is_under_attack(
        &self,
        target_col: i8,
        target_row: i8,
        attacking_color: PieceColor,
    ) -> (r: bool)
        requires
            coord_in_bounds(target_col as int, target_row as int),
        ensures
            r == self.spec_under_attack(target_col as int, target_row as int, attacking_color),
    {
        let mut col: i8 = 0;
        while col < 8
            invariant
                coord_in_bounds(target_col as int, target_row as int),
                0 <= col <= 8,
                forall|c: int, r: int|
                    0 <= c < col && 0 <= r < 8 ==> !((#[trigger] self.spec_at(c, r)).spec_occupied_by(
                        attacking_color,
                    ) && self.spec_attacks(c, r, target_col as int, target_row as int)),
            decreases 8 - col,
        {
            let mut row: i8 = 0;
            while row < 8
                invariant
                    coord_in_bounds(target_col as int, target_row as int),
                    0 <= col < 8,
                    0 <= row <= 8,
                    forall|c: int, r: int|
                        0 <= c < col && 0 <= r < 8 ==> !((#[trigger] self.spec_at(
                            c,
                            r,
                        )).spec_occupied_by(attacking_color) && self.spec_attacks(
                            c,
                            r,
                            target_col as int,
                            target_row as int,
                        )),
                    forall|r: int|
                        0 <= r < row ==> !((#[trigger] self.spec_at(col as int, r)).spec_occupied_by(
                            attacking_color,
                        ) && self.spec_attacks(
                            col as int,
                            r,
                            target_col as int,
                            target_row as int,
                        )),
                decreases 8 - row,
            {
                let sq = self.at(col, row);
                if let Some((piece, color)) = sq.piece() {
                    if color == attacking_color {
                        let mv = Move::new(col, row, target_col, target_row);

                        let is_valid_move = match piece {
                            PieceType::Pawn => mv.is_pawn_capture(color),
                            PieceType::Bishop => self.is_possible_bishop_capture(&mv),
                            PieceType::Knight => mv.is_knight_move(),
                            PieceType::Rook => self.is_possible_rook_capture(&mv),
                            PieceType::Queen => self.is_possible_queen_capture(&mv),
                            PieceType::King => mv.is_regular_king_move(),
                        };
                        if is_valid_move {
                            return true;
                        }
                    }
                }
                row = row + 1;
            }
            col = col + 1;
        }
        false
    }

    /// The first square, scanning files left to right and ranks bottom to
    /// top within a file, holding a king of the given color.
    pub fn find_king(&self, king_color: PieceColor) -> (r: Option<Pos>)
        ensures
            r == self.spec_find_king(king_color),
    {
        let mut col: i8 = 0;
        while col < 8
            invariant
                0 <= col <= 8,
                self.spec_find_king(king_color) == self.spec_first_king_from(
                    king_color,
                    col as int,
                    0,
                ),
            decreases 8 - col,
        {
            let mut row: i8 = 0;
            while row < 8
                invariant
                    0 <= col < 8,
                    0 <= row <= 8,
                    self.spec_find_king(king_color) == self.spec_first_king_from(
                        king_color,
                        col as int,
                        row as int,
                    ),
                decreases 8 - row,
            {
                let sq = self.at(col, row);
                if let Some((piece, color)) = sq.piece() {
                    if color == king_color && piece == PieceType::King {
                        return Some(Pos::new(col, row));
                    }
                }
                row = row + 1;
            }
            col = col + 1;
        }
        None
    }

    /// Whether the given color's king is attacked. The board must hold a king
    /// of that color: a kingless board is a broken invariant, not a game
    /// state.
    pub fn is_check(&self, king_color: PieceColor) -> (r: bool)
        requires
            self.spec_has_king(king_color),
        ensures
            r == self.spec_is_check(king_color),
    {
        proof {
            self.lemma_first_king_sound(king_color, 0, 0);
        }
        let king = match self.find_king(king_color) {
            Some(king) => king,
            None => vstd::pervasive::unreached(),
        };
        self.is_under_attack(king.col, king.row, king_color.opposite())
    }

    /// A found king lies on the board and is a king of the right color.
    pub proof fn lemma_first_king_sound(self, king_color: PieceColor, col: int, row: int)
        ensures
            self.spec_first_king_from(king_color, col, row) matches Some(p) ==> {
                &&& p.spec_in_bounds()
                &&& self.spec_at(p.col as int, p.row as int) == (BoardSquare {
                    piece_type: Some(PieceType::King),
                    piece_color: king_color,
                })
            },
        decreases 8 - col, 8 - row,
    {
        if col < 0 || row < 0 || col >= 8 {
        } else if row >= 8 {
            self.lemma_first_king_sound(king_color, col + 1, 0);
        } else if self.spec_at(col, row) == (BoardSquare {
            piece_type: Some(PieceType::King),
            piece_color: king_color,
        }) {
        } else {
            self.lemma_first_king_sound(king_color, col, row + 1);
        }
    }


    /// If the scan from (col, row) finds nothing, no king of that color
    /// stands at or after that point of the scan.
    proof fn lemma_first_king_none(self, king_color: PieceColor, col: int, row: int)
        requires
            0 <= col,
            0 <= row <= 8,
            self.spec_first_king_from(king_color, col, row) is None,
        ensures
            forall|c: int, r: int|
                coord_in_bounds(c, r) && (c > col || (c == col && r >= row))
                    ==> #[trigger] self.spec_at(c, r) != (BoardSquare {
                    piece_type: Some(PieceType::King),
                    piece_color: king_color,
                }),
        decreases 8 - col, 8 - row,
    {
        if col >= 8 {
        } else if row >= 8 {
            self.lemma_first_king_none(king_color, col + 1, 0);
        } else {
            self.lemma_first_king_none(king_color, col, row + 1);
        }
    }

    /// A king anywhere on the board means the scan finds one.
    pub proof fn lemma_has_king_from_witness(self, king_color: PieceColor, c: int, r: int)
        requires
            coord_in_bounds(c, r),
            self.spec_at(c, r) == (BoardSquare {
                piece_type: Some(PieceType::King),
                piece_color: king_color,
            }),
        ensures
            self.spec_has_king(king_color),
    {
        if self.spec_find_king(king_color) is None {
            self.lemma_first_king_none(king_color, 0, 0);
        }
    }

    /// Applies a move with no legality checking: moves (or promotes) the
    /// piece, clears the source, removes an en-passant-captured pawn and
    /// relocates a castling rook.
    pub fn make_move(&mut self, mv: &Move)
        requires
            mv.spec_in_bounds(),
            old(self).spec_at(mv.from_col as int, mv.from_row as int).spec_is_occupied()
                || mv.promotion_to is Some,
        ensures
            *final(self) == old(self).spec_apply_move(*mv),
    {
        let sq = *self.at(mv.from_col, mv.from_row);
        let piece_type = match mv.promotion_to {
            Some(promotion) => promotion,
            None => match sq.piece_type {
                Some(t) => t,
                None => vstd::pervasive::unreached(),
            },
        };

        let en_passant = self.is_en_passant_move(mv);
        let castle = self.is_castle_move(mv);

        self.clear_square(mv.from_col, mv.from_row);
        self.set(mv.to_col, mv.to_row, piece_type, sq.piece_color);

        if let Some(en_passant_at) = en_passant {
            self.clear_square(en_passant_at.col, en_passant_at.row);
        }

        if let Some((old_rook_coords, new_rook_coords)) = castle {
            self.clear_square(old_rook_coords.col, old_rook_coords.row);
            self.set(new_rook_coords.col, new_rook_coords.row, PieceType::Rook, sq.piece_color);
        }

        proof {
            broadcast use vstd::array::axiom_spec_array_update;
            broadcast use vstd::array::axiom_array_ext_equal;

            let applied = old(self).spec_apply_move(*mv);
            assert(self.squares@ =~= applied.squares@);
            assert(self.squares =~= applied.squares);
        }
    }
}

/// Smaller of the files/ranks a castling king starts on, crosses or reaches,
/// by destination file.
pub open spec fn spec_castle_attack_lo(to_col: int) -> int {
    if to_col == 6 {
        4
    } else {
        2
    }
}

pub open spec fn spec_castle_attack_hi(to_col: int) -> int {
    if to_col == 6 {
        6
    } else {
        4
    }
}

/// The files strictly between king and rook that must be empty, by
/// destination file.
pub open spec fn spec_castle_empty_lo(to_col: int) -> int {
    if to_col == 6 {
        5
    } else {
        1
    }
}

pub open spec fn spec_castle_empty_hi(to_col: int) -> int {
    if to_col == 6 {
        6
    } else {
        3
    }
}

pub open spec fn spec_min(a: int, b: int) -> int {
    if a <= b {
        a
    } else {
        b
    }
}

pub open spec fn spec_max(a: int, b: int) -> int {
    if a >= b {
        a
    } else {
        b
    }
}

/// Distinct in-bounds coordinates map to distinct storage indices.
proof fn lemma_index_injective(col: int, row: int)
    requires
        coord_in_bounds(col, row),
    ensures
        forall|c: int, r: int|
            coord_in_bounds(c, r) && (c != col || r != row) ==> r * 8 + c != row * 8 + col,
        0 <= row * 8 + col < 64,
{
    assert forall|c: int, r: int|
        coord_in_bounds(c, r) && (c != col || r != row) implies r * 8 + c != row * 8 + col by {
        assert(r * 8 + c != row * 8 + col) by (nonlinear_arith)
            requires
                0 <= c < 8,
                0 <= r < 8,
                0 <= col < 8,
                0 <= row < 8,
                (c != col || r != row),
        ;
    }
    assert(0 <= row * 8 + col < 64) by (nonlinear_arith)
        requires
            0 <= col < 8,
            0 <= row < 8,
    ;
}

} // verus!
