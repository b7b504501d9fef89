//! A single ply: source and destination coordinates plus an optional
//! promotion piece, together with the pure geometric predicates of each piece
//! kind and long-notation (coordinate pair) formatting and parsing.
use vstd::prelude::*;

use crate::board::{PieceColor, PieceType};
use crate::pos::{coord_in_bounds, Pos};

verus! {

#[derive(Copy, Clone, PartialEq, Eq, Structural, Debug)]
pub struct Move {
    pub from_col: i8,
    pub from_row: i8,
    pub to_col: i8,
    pub to_row: i8,
    pub promotion_to: Option<PieceType>,
}

pub open spec fn abs_diff(a: int, b: int) -> int {
    if a >= b {
        a - b
    } else {
        b - a
    }
}

/// A pawn's forward direction: up the board for White, down for Black.
pub open spec fn spec_pawn_direction(color: PieceColor) -> int {
    match color {
        PieceColor::White => 1,
        PieceColor::Black => -1,
    }
}

/// The rank a pawn of this color starts on, from which a two-step advance is
/// allowed.
pub open spec fn spec_pawn_home_row(color: PieceColor) -> int {
    match color {
        PieceColor::White => 1,
        PieceColor::Black => 6,
    }
}

impl Move {
    /// All four coordinates denote real board squares.
    pub open spec fn spec_in_bounds(self) -> bool {
        coord_in_bounds(self.from_col as int, self.from_row as int) && coord_in_bounds(
            self.to_col as int,
            self.to_row as int,
        )
    }

    /// The promotion field, when present, names a piece a pawn may become.
    pub open spec fn spec_promotion_ok(self) -> bool {
        match self.promotion_to {
            Some(t) => t.spec_is_valid_for_promotion(),
            None => true,
        }
    }

    /// A move any `Move` constructor can produce.
    pub open spec fn spec_constructible(self) -> bool {
        self.spec_in_bounds() && self.spec_promotion_ok()
    }

    pub open spec fn spec_is_diagonal(self) -> bool {
        abs_diff(self.from_col as int, self.to_col as int) == abs_diff(
            self.from_row as int,
            self.to_row as int,
        )
    }

    pub open spec fn spec_is_straight(self) -> bool {
        self.from_col == self.to_col || self.from_row == self.to_row
    }

    /// A pawn push: same file, one step forward — or two from the home rank —
    /// carrying a promotion piece exactly when the destination is the back
    /// rank.
    pub open spec fn spec_is_pawn_move(self, pawn_color: PieceColor) -> bool {
        let dir = spec_pawn_direction(pawn_color);
        &&& self.from_col == self.to_col
        &&& (self.to_row == self.from_row + dir || (self.to_row == self.from_row + 2 * dir
            && self.from_row == spec_pawn_home_row(pawn_color)))
        &&& ((self.to_row == 0 || self.to_row == 7) ==> self.promotion_to is Some)
        &&& ((1 <= self.to_row <= 6) ==> self.promotion_to is None)
    }

    /// A pawn capture shape: one file over, one rank forward in the pawn's
    /// direction (destination occupancy is not this predicate's concern).
    pub open spec fn spec_is_pawn_capture(self, pawn_color: PieceColor) -> bool {
        &&& self.to_row == self.from_row + spec_pawn_direction(pawn_color)
        &&& abs_diff(self.from_col as int, self.to_col as int) == 1
    }

    pub open spec fn spec_is_knight_move(self) -> bool {
        let v = abs_diff(self.from_row as int, self.to_row as int);
        let h = abs_diff(self.from_col as int, self.to_col as int);
        v > 0 && h > 0 && v + h == 3
    }

    /// One king step in any direction (castling is recognised separately).
    pub open spec fn spec_is_regular_king_move(self) -> bool {
        abs_diff(self.from_row as int, self.to_row as int) <= 1 && abs_diff(
            self.from_col as int,
            self.to_col as int,
        ) <= 1
    }

    pub fn new(from_col: i8, from_row: i8, to_col: i8, to_row: i8) -> (r: Move)
        requires
            coord_in_bounds(from_col as int, from_row as int),
            coord_in_bounds(to_col as int, to_row as int),
        ensures
            r == (Move { from_col, from_row, to_col, to_row, promotion_to: None }),
            r.spec_constructible(),
    {
        Move { from_col, from_row, to_col, to_row, promotion_to: None }
    }

    pub fn from_pos(from: &Pos, to: &Pos) -> (r: Move)
        requires
            from.spec_in_bounds(),
            to.spec_in_bounds(),
        ensures
            r == (Move {
                from_col: from.col,
                from_row: from.row,
                to_col: to.col,
                to_row: to.row,
                promotion_to: None,
            }),
            r.spec_constructible(),
    {
        Move::new(from.col, from.row, to.col, to.row)
    }

    pub fn with_promotion(
        from_col: i8,
        from_row: i8,
        to_col: i8,
        to_row: i8,
        promotion_to: PieceType,
    ) -> (r: Move)
        requires
            coord_in_bounds(from_col as int, from_row as int),
            coord_in_bounds(to_col as int, to_row as int),
            promotion_to.spec_is_valid_for_promotion(),
        ensures
            r == (Move { from_col, from_row, to_col, to_row, promotion_to: Some(promotion_to) }),
            r.spec_constructible(),
    {
        Move { from_col, from_row, to_col, to_row, promotion_to: Some(promotion_to) }
    }

    pub fn with_promotion_from_pos(from: &Pos, to: &Pos, promotion_to: PieceType) -> (r: Move)
        requires
            from.spec_in_bounds(),
            to.spec_in_bounds(),
            promotion_to.spec_is_valid_for_promotion(),
        ensures
            r == (Move {
                from_col: from.col,
                from_row: from.row,
                to_col: to.col,
                to_row: to.row,
                promotion_to: Some(promotion_to),
            }),
            r.spec_constructible(),
    {
        Move::with_promotion(from.col, from.row, to.col, to.row, promotion_to)
    }

    pub fn from(&self) -> (r: (i8, i8))
        ensures
            r == (self.from_col, self.from_row),
    {
        (self.from_col, self.from_row)
    }

    pub fn to(&self) -> (r: (i8, i8))
        ensures
            r == (self.to_col, self.to_row),
    {
        (self.to_col, self.to_row)
    }

    pub fn has_promotion(&self) -> (r: bool)
        ensures
            r == (self.promotion_to is Some),
    {
        self.promotion_to.is_some()
    }

    pub fn is_diagonal(&self) -> (r: bool)
        ensures
            r == self.spec_is_diagonal(),
    {
        let dc = (self.from_col as i16) - (self.to_col as i16);
        let dr = (self.from_row as i16) - (self.to_row as i16);
        let adc = if dc < 0 {
            -dc
        } else {
            dc
        };
        let adr = if dr < 0 {
            -dr
        } else {
            dr
        };
        adc == adr
    }

    pub fn is_straight(&self) -> (r: bool)
        ensures
            r == self.spec_is_straight(),
    {
        self.from_col == self.to_col || self.from_row == self.to_row
    }

    pub fn is_pawn_move(&self, pawn_color: PieceColor) -> (r: bool)
        ensures
            r == self.spec_is_pawn_move(pawn_color),
    {
        if self.from_col != self.to_col {
            return false;
        }
        let from_row = self.from_row as i16;
        let to_row = self.to_row as i16;
        let valid_pawn_direction: i16;
        let row_for_two_step: i16;
        if pawn_color == PieceColor::White {
            valid_pawn_direction = 1;
            row_for_two_step = 1;
        } else {
            valid_pawn_direction = -1;
            row_for_two_step = 6;
        }
        let is_step_ok = (to_row == from_row + valid_pawn_direction) || (to_row == from_row
            + valid_pawn_direction * 2 && from_row == row_for_two_step);
        if !is_step_ok {
            return false;
        }
        if (to_row == 0 || to_row == 7) && self.promotion_to.is_none() {
            return false;
        }
        if to_row >= 1 && to_row <= 6 && self.promotion_to.is_some() {
            return false;
        }
        true
    }

    pub fn is_pawn_capture(&self, pawn_color: PieceColor) -> (r: bool)
        ensures
            r == self.spec_is_pawn_capture(pawn_color),
    {
        let from_row = self.from_row as i16;
        let to_row = self.to_row as i16;
        if pawn_color == PieceColor::White {
            if to_row != from_row + 1 {
                return false;
            }
        } else {
            if to_row != from_row - 1 {
                return false;
            }
        }
        let dc = (self.from_col as i16) - (self.to_col as i16);
        dc == 1 || dc == -1
    }

    pub fn is_knight_move(&self) -> (r: bool)
        ensures
            r == self.spec_is_knight_move(),
    {
        let dr = (self.from_row as i16) - (self.to_row as i16);
        let dc = (self.from_col as i16) - (self.to_col as i16);
        let vertical_move = if dr < 0 {
            -dr
        } else {
            dr
        };
        let horizontal_move = if dc < 0 {
            -dc
        } else {
            dc
        };
        vertical_move > 0 && horizontal_move > 0 && vertical_move + horizontal_move == 3
    }

    pub fn is_regular_king_move(&self) -> (r: bool)
        ensures
            r == self.spec_is_regular_king_move(),
    {
        let dr = (self.from_row as i16) - (self.to_row as i16);
        let dc = (self.from_col as i16) - (self.to_col as i16);
        let vertical_move = if dr < 0 {
            -dr
        } else {
            dr
        };
        let horizontal_move = if dc < 0 {
            -dc
        } else {
            dc
        };
        vertical_move <= 1 && horizontal_move <= 1
    }
}


/// The piece a long-notation promotion letter names (case-insensitive),
/// if it names one.
pub open spec fn spec_promo_char_piece(c: char) -> Option<PieceType> {
    if c == 'q' || c == 'Q' {
        Some(PieceType::Queen)
    } else if c == 'r' || c == 'R' {
        Some(PieceType::Rook)
    } else if c == 'b' || c == 'B' {
        Some(PieceType::Bishop)
    } else if c == 'n' || c == 'N' {
        Some(PieceType::Knight)
    } else {
        None
    }
}

/// Well-formed long notation: source file and rank, destination file and
/// rank, and an optional promotion letter. Anything else is a caller bug at
/// this layer, not a recoverable error.
pub open spec fn spec_long_notation_wf(s: Seq<char>) -> bool {
    &&& s.len() == 4 || s.len() == 5
    &&& 'a' <= s[0] <= 'h'
    &&& '1' <= s[1] <= '8'
    &&& 'a' <= s[2] <= 'h'
    &&& '1' <= s[3] <= '8'
    &&& (s.len() == 5 ==> spec_promo_char_piece(s[4]) is Some)
}

/// The move well-formed long notation denotes.
pub open spec fn spec_parse_long_notation(s: Seq<char>) -> Move
    recommends
        spec_long_notation_wf(s),
{
    Move {
        from_col: (s[0] as int - 'a' as int) as i8,
        from_row: (s[1] as int - '1' as int) as i8,
        to_col: (s[2] as int - 'a' as int) as i8,
        to_row: (s[3] as int - '1' as int) as i8,
        promotion_to: if s.len() == 5 {
            spec_promo_char_piece(s[4])
        } else {
            None
        },
    }
}

/// The file letter of a board column.
pub open spec fn spec_file_char(col: int) -> char {
    ((97 + col) as u8) as char
}

/// The rank digit of a board row.
pub open spec fn spec_rank_char(row: int) -> char {
    ((49 + row) as u8) as char
}

/// The lower-case promotion letter of a piece (pawns and kings, which cannot
/// be promoted to, fall to a placeholder).
pub open spec fn spec_promo_char(t: PieceType) -> char {
    match t {
        PieceType::Queen => 'q',
        PieceType::Rook => 'r',
        PieceType::Bishop => 'b',
        PieceType::Knight => 'n',
        _ => '?',
    }
}

/// The long-notation text of a move: four coordinate characters plus the
/// promotion letter when one is carried.
pub open spec fn spec_format_long_notation(m: Move) -> Seq<char> {
    let base = seq![
        spec_file_char(m.from_col as int),
        spec_rank_char(m.from_row as int),
        spec_file_char(m.to_col as int),
        spec_rank_char(m.to_row as int),
    ];
    match m.promotion_to {
        Some(t) => base.push(spec_promo_char(t)),
        None => base,
    }
}

/// Relies on String::push: appends exactly one character.
#[verifier::external_body]
pub(crate) fn push_char(s: &mut String, c: char)
    ensures
        final(s)@ == old(s)@.push(c),
{
    s.push(c);
}

impl Move {
    /// Parses long notation (`e2e4`, `a7a8q`). Malformed text is a
    /// caller-contract violation, screened by the precondition.
    pub fn from_long_notation(s: &str) -> (r: Move)
        requires
            spec_long_notation_wf(s@),
        ensures
            r == spec_parse_long_notation(s@),
            r.spec_constructible(),
    {
        let len = s.unicode_len();
        let from_col = ((s.get_char(0) as u32) - ('a' as u32)) as i8;
        let from_row = ((s.get_char(1) as u32) - ('1' as u32)) as i8;
        let to_col = ((s.get_char(2) as u32) - ('a' as u32)) as i8;
        let to_row = ((s.get_char(3) as u32) - ('1' as u32)) as i8;

        if len == 5 {
            let promotion_char = s.get_char(4);
            let promotion_to = match promotion_char {
                'q' | 'Q' => PieceType::Queen,
                'r' | 'R' => PieceType::Rook,
                'b' | 'B' => PieceType::Bishop,
                _ => PieceType::Knight,
            };
            Move::with_promotion(from_col, from_row, to_col, to_row, promotion_to)
        } else {
            Move::new(from_col, from_row, to_col, to_row)
        }
    }

    /// The long-notation text of this move.
    pub fn long_notation(&self) -> (r: String)
        requires
            self.spec_in_bounds(),
        ensures
            r@ == spec_format_long_notation(*self),
    {
        let mut out = String::new();
        push_char(&mut out, (97u8 + (self.from_col as u8)) as char);
        push_char(&mut out, (49u8 + (self.from_row as u8)) as char);
        push_char(&mut out, (97u8 + (self.to_col as u8)) as char);
        push_char(&mut out, (49u8 + (self.to_row as u8)) as char);
        if let Some(promotion_to) = self.promotion_to {
            let promotion_char = match promotion_to {
                PieceType::Queen => 'q',
                PieceType::Rook => 'r',
                PieceType::Bishop => 'b',
                PieceType::Knight => 'n',
                _ => '?',
            };
            push_char(&mut out, promotion_char);
        }
        proof {
            assert(out@ =~= spec_format_long_notation(*self));
        }
        out
    }
}

/// Round trip: formatting any constructible move in long notation and
/// parsing the text back yields the same move, promotions included.
pub proof fn lemma_long_notation_round_trip(m: Move)
    requires
        m.spec_constructible(),
    ensures
        spec_long_notation_wf(spec_format_long_notation(m)),
        spec_parse_long_notation(spec_format_long_notation(m)) == m,
{
    let s = spec_format_long_notation(m);
    assert(s[0] == spec_file_char(m.from_col as int));
    assert(s[1] == spec_rank_char(m.from_row as int));
    assert(s[2] == spec_file_char(m.to_col as int));
    assert(s[3] == spec_rank_char(m.to_row as int));
}

} // verus!
