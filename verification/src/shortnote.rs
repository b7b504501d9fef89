//! Short (algebraic) notation: castling tokens, then a grammar of optional
//! piece letter, optional disambiguating file and/or rank, optional capture
//! marker, destination square, optional promotion suffix and an ignored
//! check/mate marker. Matching scans for the leftmost start position and
//! prefers every optional part present, longest first — and resolution then
//! searches the board for the unique origin square consistent with the
//! disambiguators, the capture marker and full legality.
use vstd::prelude::*;

use crate::board::{Board, PieceColor, PieceType};
use crate::game::{spec_validate_move, Game, MoveError};
use crate::moves::Move;
use crate::pos::coord_in_bounds;

verus! {

pub open spec fn spec_is_piece_char(c: char) -> bool {
    c == 'R' || c == 'B' || c == 'N' || c == 'K' || c == 'Q'
}

pub open spec fn spec_piece_of_char(c: char) -> PieceType {
    if c == 'R' {
        PieceType::Rook
    } else if c == 'B' {
        PieceType::Bishop
    } else if c == 'N' {
        PieceType::Knight
    } else if c == 'K' {
        PieceType::King
    } else {
        PieceType::Queen
    }
}

pub open spec fn spec_is_file_char(c: char) -> bool {
    'a' <= c <= 'h'
}

pub open spec fn spec_is_rank_char(c: char) -> bool {
    '1' <= c <= '8'
}

/// The pieces a promotion suffix may name (no king).
pub open spec fn spec_is_promo_char(c: char) -> bool {
    c == 'R' || c == 'B' || c == 'N' || c == 'Q'
}

pub open spec fn spec_file_val(c: char) -> i8 {
    (c as int - 'a' as int) as i8
}

pub open spec fn spec_rank_val(c: char) -> i8 {
    (c as int - '1' as int) as i8
}

/// The parsed components of one short-notation move text.
#[derive(Copy, Clone, PartialEq, Eq, Structural, Debug)]
pub struct ShortParts {
    pub piece: PieceType,
    pub disambig_col: Option<i8>,
    pub disambig_row: Option<i8>,
    pub takes: bool,
    pub to_col: i8,
    pub to_row: i8,
    pub promotion: Option<PieceType>,
}

impl ShortParts {
    /// Every coordinate a match can produce lies on the board, and a parsed
    /// promotion piece is one a pawn may become.
    pub open spec fn spec_wf(self) -> bool {
        &&& coord_in_bounds(self.to_col as int, self.to_row as int)
        &&& (self.disambig_col matches Some(d) ==> 0 <= d < 8)
        &&& (self.disambig_row matches Some(d) ==> 0 <= d < 8)
        &&& (self.promotion matches Some(p) ==> p.spec_is_valid_for_promotion())
    }
}

/// The promotion suffix starting at `q`, if any: a promotion letter,
/// optionally preceded by `=` or `/`, or wrapped in parentheses; the
/// longer spellings are preferred.
pub open spec fn spec_parse_promo(s: Seq<char>, q: int) -> Option<PieceType> {
    if q + 1 < s.len() && (s[q] == '=' || s[q] == '/') && spec_is_promo_char(s[q + 1]) {
        Some(spec_piece_of_char(s[q + 1]))
    } else if q < s.len() && spec_is_promo_char(s[q]) {
        Some(spec_piece_of_char(s[q]))
    } else if q + 2 < s.len() && s[q] == '(' && spec_is_promo_char(s[q + 1]) && s[q + 2] == ')' {
        Some(spec_piece_of_char(s[q + 1]))
    } else {
        None
    }
}

/// One choice of which optional parts (disambiguating file, disambiguating
/// rank, capture marker) are present, tried at position `q0` after the piece
/// letter.
pub open spec fn spec_try_combo(
    s: Seq<char>,
    piece: PieceType,
    q0: int,
    use_dcol: bool,
    use_drow: bool,
    use_takes: bool,
) -> Option<ShortParts> {
    let q1 = if use_dcol {
        q0 + 1
    } else {
        q0
    };
    let q2 = if use_drow {
        q1 + 1
    } else {
        q1
    };
    let q3 = if use_takes {
        q2 + 1
    } else {
        q2
    };
    if use_dcol && !(q0 < s.len() && spec_is_file_char(s[q0])) {
        None
    } else if use_drow && !(q1 < s.len() && spec_is_rank_char(s[q1])) {
        None
    } else if use_takes && !(q2 < s.len() && s[q2] == 'x') {
        None
    } else if !(q3 + 2 <= s.len() && spec_is_file_char(s[q3]) && spec_is_rank_char(s[q3 + 1])) {
        None
    } else {
        Some(
            ShortParts {
                piece,
                disambig_col: if use_dcol {
                    Some(spec_file_val(s[q0]))
                } else {
                    None
                },
                disambig_row: if use_drow {
                    Some(spec_rank_val(s[q1]))
                } else {
                    None
                },
                takes: use_takes,
                to_col: spec_file_val(s[q3]),
                to_row: spec_rank_val(s[q3 + 1]),
                promotion: spec_parse_promo(s, q3 + 2),
            },
        )
    }
}

/// A grammar match starting exactly at `p`: a piece letter is consumed when
/// present, then the eight present/absent choices for the optional parts are
/// tried, preferring each part present and earlier parts first.
pub open spec fn spec_match_at(s: Seq<char>, p: int) -> Option<ShortParts> {
    let piece = if p < s.len() && spec_is_piece_char(s[p]) {
        spec_piece_of_char(s[p])
    } else {
        PieceType::Pawn
    };
    let q0 = if p < s.len() && spec_is_piece_char(s[p]) {
        p + 1
    } else {
        p
    };
    if spec_try_combo(s, piece, q0, true, true, true) is Some {
        spec_try_combo(s, piece, q0, true, true, true)
    } else if spec_try_combo(s, piece, q0, true, true, false) is Some {
        spec_try_combo(s, piece, q0, true, true, false)
    } else if spec_try_combo(s, piece, q0, true, false, true) is Some {
        spec_try_combo(s, piece, q0, true, false, true)
    } else if spec_try_combo(s, piece, q0, true, false, false) is Some {
        spec_try_combo(s, piece, q0, true, false, false)
    } else if spec_try_combo(s, piece, q0, false, true, true) is Some {
        spec_try_combo(s, piece, q0, false, true, true)
    } else if spec_try_combo(s, piece, q0, false, true, false) is Some {
        spec_try_combo(s, piece, q0, false, true, false)
    } else if spec_try_combo(s, piece, q0, false, false, true) is Some {
        spec_try_combo(s, piece, q0, false, false, true)
    } else {
        spec_try_combo(s, piece, q0, false, false, false)
    }
}

/// The leftmost grammar match at or after `p`.
pub open spec fn spec_find_match(s: Seq<char>, p: int) -> Option<ShortParts>
    decreases s.len() - p,
{
    if p < 0 || p >= s.len() {
        None
    } else if spec_match_at(s, p) is Some {
        spec_match_at(s, p)
    } else {
        spec_find_match(s, p + 1)
    }
}

/// A queenside castling token (`0-0-0`, `o-o-o` or `O-O-O`) starts the text.
pub open spec fn spec_is_queenside_castle_text(s: Seq<char>) -> bool {
    &&& s.len() >= 5
    &&& (s[0] == '0' || s[0] == 'o' || s[0] == 'O')
    &&& s[1] == '-'
    &&& s[2] == s[0]
    &&& s[3] == '-'
    &&& s[4] == s[0]
}

/// A kingside castling token (`0-0`, `o-o` or `O-O`) starts the text.
pub open spec fn spec_is_kingside_castle_text(s: Seq<char>) -> bool {
    &&& s.len() >= 3
    &&& (s[0] == '0' || s[0] == 'o' || s[0] == 'O')
    &&& s[1] == '-'
    &&& s[2] == s[0]
}

fn is_file_char(c: char) -> (r: bool)
    ensures
        r == spec_is_file_char(c),
{
    ('a' as u32) <= (c as u32) && (c as u32) <= ('h' as u32)
}

fn is_rank_char(c: char) -> (r: bool)
    ensures
        r == spec_is_rank_char(c),
{
    ('1' as u32) <= (c as u32) && (c as u32) <= ('8' as u32)
}

fn is_piece_char(c: char) -> (r: bool)
    ensures
        r == spec_is_piece_char(c),
{
    c == 'R' || c == 'B' || c == 'N' || c == 'K' || c == 'Q'
}

fn is_promo_char(c: char) -> (r: bool)
    ensures
        r == spec_is_promo_char(c),
{
    c == 'R' || c == 'B' || c == 'N' || c == 'Q'
}

fn piece_of_char(c: char) -> (r: PieceType)
    ensures
        r == spec_piece_of_char(c),
{
    if c == 'R' {
        PieceType::Rook
    } else if c == 'B' {
        PieceType::Bishop
    } else if c == 'N' {
        PieceType::Knight
    } else if c == 'K' {
        PieceType::King
    } else {
        PieceType::Queen
    }
}

fn file_val(c: char) -> (r: i8)
    requires
        spec_is_file_char(c),
    ensures
        r == spec_file_val(c),
        0 <= r < 8,
{
    ((c as u32) - ('a' as u32)) as i8
}

fn rank_val(c: char) -> (r: i8)
    requires
        spec_is_rank_char(c),
    ensures
        r == spec_rank_val(c),
        0 <= r < 8,
{
    ((c as u32) - ('1' as u32)) as i8
}

/// The executable promotion-suffix parse.
fn parse_promo(s: &str, len: usize, q: usize) -> (r: Option<PieceType>)
    requires
        len == s@.len(),
        q <= len,
    ensures
        r == spec_parse_promo(s@, q as int),
{
    if len - q >= 2 {
        let c0 = s.get_char(q);
        if (c0 == '=' || c0 == '/') && is_promo_char(s.get_char(q + 1)) {
            return Some(piece_of_char(s.get_char(q + 1)));
        }
    }
    if len - q >= 1 {
        let c0 = s.get_char(q);
        if is_promo_char(c0) {
            return Some(piece_of_char(c0));
        }
    }
    if len - q >= 3 {
        if s.get_char(q) == '(' && is_promo_char(s.get_char(q + 1)) && s.get_char(q + 2) == ')' {
            return Some(piece_of_char(s.get_char(q + 1)));
        }
    }
    None
}

/// The executable attempt of one present/absent choice of optional parts.
#[verifier::rlimit(50)]
fn try_combo(
    s: &str,
    len: usize,
    piece: PieceType,
    q0: usize,
    use_dcol: bool,
    use_drow: bool,
    use_takes: bool,
) -> (r: Option<ShortParts>)
    requires
        len == s@.len(),
        q0 <= len,
    ensures
        r == spec_try_combo(s@, piece, q0 as int, use_dcol, use_drow, use_takes),
        r matches Some(parts) ==> parts.spec_wf(),
{
    let mut q = q0;
    let mut dcol: Option<i8> = None;
    let mut drow: Option<i8> = None;
    if use_dcol {
        if !(q < len) {
            return None;
        }
        let c = s.get_char(q);
        if !is_file_char(c) {
            return None;
        }
        dcol = Some(file_val(c));
        q = q + 1;
    }
    if use_drow {
        if !(q < len) {
            return None;
        }
        let c = s.get_char(q);
        if !is_rank_char(c) {
            return None;
        }
        drow = Some(rank_val(c));
        q = q + 1;
    }
    if use_takes {
        if !(q < len) {
            return None;
        }
        if s.get_char(q) != 'x' {
            return None;
        }
        q = q + 1;
    }
    if len - q < 2 {
        return None;
    }
    let c_col = s.get_char(q);
    let c_row = s.get_char(q + 1);
    if !is_file_char(c_col) || !is_rank_char(c_row) {
        return None;
    }
    let parts = ShortParts {
        piece,
        disambig_col: dcol,
        disambig_row: drow,
        takes: use_takes,
        to_col: file_val(c_col),
        to_row: rank_val(c_row),
        promotion: parse_promo(s, len, q + 2),
    };
    proof {
        match parts.promotion {
            Some(p) => {
                assert(p.spec_is_valid_for_promotion());
            },
            None => {},
        }
    }
    Some(parts)
}

/// The executable grammar match at one position.
fn match_at(s: &str, len: usize, p: usize) -> (r: Option<ShortParts>)
    requires
        len == s@.len(),
        p < len,
    ensures
        r == spec_match_at(s@, p as int),
        r matches Some(parts) ==> parts.spec_wf(),
{
    let (piece, q0): (PieceType, usize) = if p < len && is_piece_char(s.get_char(p)) {
        (piece_of_char(s.get_char(p)), p + 1)
    } else {
        (PieceType::Pawn, p)
    };
    if let Some(parts) = try_combo(s, len, piece, q0, true, true, true) {
        return Some(parts);
    }
    if let Some(parts) = try_combo(s, len, piece, q0, true, true, false) {
        return Some(parts);
    }
    if let Some(parts) = try_combo(s, len, piece, q0, true, false, true) {
        return Some(parts);
    }
    if let Some(parts) = try_combo(s, len, piece, q0, true, false, false) {
        return Some(parts);
    }
    if let Some(parts) = try_combo(s, len, piece, q0, false, true, true) {
        return Some(parts);
    }
    if let Some(parts) = try_combo(s, len, piece, q0, false, true, false) {
        return Some(parts);
    }
    if let Some(parts) = try_combo(s, len, piece, q0, false, false, true) {
        return Some(parts);
    }
    try_combo(s, len, piece, q0, false, false, false)
}

/// The executable leftmost-match scan.
fn find_match(s: &str, len: usize) -> (r: Option<ShortParts>)
    requires
        len == s@.len(),
    ensures
        r == spec_find_match(s@, 0),
        r matches Some(parts) ==> parts.spec_wf(),
{
    let mut p: usize = 0;
    while p < len
        invariant
            len == s@.len(),
            0 <= p <= len,
            spec_find_match(s@, 0) == spec_find_match(s@, p as int),
        decreases len - p,
    {
        let attempt = match_at(s, len, p);
        if attempt.is_some() {
            return attempt;
        }
        p = p + 1;
    }
    None
}


/// The candidate origin (c, r) is consistent with the parsed text and fully
/// legal: it lies in the disambiguated range, holds the named piece of the
/// side to move, the capture marker agrees with the destination's occupancy
/// (a pawn may capture an empty square only en passant), and the oracle
/// accepts the move.
pub open spec fn spec_short_candidate_ok(
    board: Board,
    turn: PieceColor,
    history: Seq<Move>,
    parts: ShortParts,
    c: int,
    r: int,
) -> bool {
    let target = board.spec_at(parts.to_col as int, parts.to_row as int);
    let mv = spec_candidate_move(parts, c, r);
    &&& coord_in_bounds(c, r)
    &&& (parts.disambig_col matches Some(d) ==> c == d)
    &&& (parts.disambig_row matches Some(d) ==> r == d)
    &&& board.spec_at(c, r).spec_occupied_by(turn)
    &&& board.spec_at(c, r).piece_type == Some(parts.piece)
    &&& !(parts.takes && !target.spec_is_occupied() && parts.piece != PieceType::Pawn)
    &&& !(!parts.takes && target.spec_is_occupied())
    &&& spec_validate_move(board, turn, history, mv) is Ok
    &&& ((parts.takes && !target.spec_is_occupied() && parts.piece == PieceType::Pawn)
        ==> board.spec_en_passant_target(mv) is Some)
}

/// The move a candidate origin denotes.
pub open spec fn spec_candidate_move(parts: ShortParts, c: int, r: int) -> Move {
    Move {
        from_col: c as i8,
        from_row: r as i8,
        to_col: parts.to_col,
        to_row: parts.to_row,
        promotion_to: parts.promotion,
    }
}

/// Resolution of a parsed text against the position: a friendly piece on the
/// destination is rejected outright; otherwise exactly one surviving
/// candidate is required — zero is no legal move, two is ambiguity.
pub open spec fn spec_resolve_short(
    board: Board,
    turn: PieceColor,
    history: Seq<Move>,
    parts: ShortParts,
) -> Result<Move, MoveError> {
    let target = board.spec_at(parts.to_col as int, parts.to_row as int);
    if target.spec_is_occupied() && target.piece_color == turn {
        Err(MoveError::OwnPieceBlocked)
    } else if !(exists|c: int, r: int| spec_short_candidate_ok(board, turn, history, parts, c, r)) {
        Err(MoveError::NoLegalMoveFound)
    } else if exists|c1: int, r1: int, c2: int, r2: int|
        (c1 != c2 || r1 != r2) && spec_short_candidate_ok(board, turn, history, parts, c1, r1)
            && spec_short_candidate_ok(board, turn, history, parts, c2, r2) {
        Err(MoveError::AmbiguousNotation)
    } else {
        let (c, r): (int, int) = choose|c: int, r: int|
            spec_short_candidate_ok(board, turn, history, parts, c, r);
        Ok(spec_candidate_move(parts, c, r))
    }
}

/// What parsing a short-notation text against a position yields: a castling
/// token becomes the king's two-file move gated by the oracle; any other
/// text is matched against the grammar and resolved on the board.
pub open spec fn spec_parse_short_notation(
    board: Board,
    turn: PieceColor,
    history: Seq<Move>,
    s: Seq<char>,
) -> Result<Move, MoveError> {
    let home_row: i8 = if turn == PieceColor::White {
        0
    } else {
        7
    };
    if spec_is_queenside_castle_text(s) {
        let mv = Move { from_col: 4, from_row: home_row, to_col: 2, to_row: home_row, promotion_to: None };
        if spec_validate_move(board, turn, history, mv) is Ok {
            Ok(mv)
        } else {
            Err(MoveError::NoLegalMoveFound)
        }
    } else if spec_is_kingside_castle_text(s) {
        let mv = Move { from_col: 4, from_row: home_row, to_col: 6, to_row: home_row, promotion_to: None };
        if spec_validate_move(board, turn, history, mv) is Ok {
            Ok(mv)
        } else {
            Err(MoveError::NoLegalMoveFound)
        }
    } else {
        match spec_find_match(s, 0) {
            None => Err(MoveError::NotationParseError),
            Some(parts) => spec_resolve_short(board, turn, history, parts),
        }
    }
}

impl Game {
    /// Parses short algebraic notation against the current position and
    /// returns the unique fully legal move it denotes, or why there is no
    /// such move. The game is never mutated.
    pub fn parse_short_notation(&self, s: &str) -> (r: Result<Move, MoveError>)
        requires
            self.is_check == self.board.spec_is_check(self.turn),
        ensures
            r == spec_parse_short_notation(self.board, self.turn, self.history.moves@, s@),
    {
        let len = s.unicode_len();
        let home_row: i8 = if self.turn == PieceColor::White {
            0
        } else {
            7
        };

        let queenside = len >= 5 && {
            let c0 = s.get_char(0);
            (c0 == '0' || c0 == 'o' || c0 == 'O') && s.get_char(1) == '-' && s.get_char(2) == c0
                && s.get_char(3) == '-' && s.get_char(4) == c0
        };
        if queenside {
            let mv = Move::new(4, home_row, 2, home_row);
            return if self.validate_move(&mv).is_ok() {
                Ok(mv)
            } else {
                Err(MoveError::NoLegalMoveFound)
            };
        }
        let kingside = len >= 3 && {
            let c0 = s.get_char(0);
            (c0 == '0' || c0 == 'o' || c0 == 'O') && s.get_char(1) == '-' && s.get_char(2) == c0
        };
        if kingside {
            let mv = Move::new(4, home_row, 6, home_row);
            return if self.validate_move(&mv).is_ok() {
                Ok(mv)
            } else {
                Err(MoveError::NoLegalMoveFound)
            };
        }

        let Some(parts) = find_match(s, len) else {
            return Err(MoveError::NotationParseError);
        };

        self.resolve_short(parts)
    }

    /// Scans the whole board for candidate origins, keeping at most one.
    fn resolve_short(&self, parts: ShortParts) -> (r: Result<Move, MoveError>)
        requires
            self.is_check == self.board.spec_is_check(self.turn),
            parts.spec_wf(),
        ensures
            r == spec_resolve_short(self.board, self.turn, self.history.moves@, parts),
    {
        let target_sq = *self.board.at(parts.to_col, parts.to_row);
        if target_sq.is_occupied() && target_sq.piece_color() == self.turn {
            return Err(MoveError::OwnPieceBlocked);
        }

        let mut found: Option<Move> = None;
        let ghost mut found_at: (int, int) = (0int, 0int);
        let mut col: i8 = 0;
        while col < 8
            invariant
                self.is_check == self.board.spec_is_check(self.turn),
                parts.spec_wf(),
                0 <= col <= 8,
                found is None ==> forall|c: int, r: int|
                    0 <= c < col && 0 <= r < 8 ==> !spec_short_candidate_ok(
                        self.board,
                        self.turn,
                        self.history.moves@,
                        parts,
                        c,
                        r,
                    ),
                found matches Some(mv) ==> {
                    &&& spec_short_candidate_ok(
                        self.board,
                        self.turn,
                        self.history.moves@,
                        parts,
                        found_at.0,
                        found_at.1,
                    )
                    &&& mv == spec_candidate_move(parts, found_at.0, found_at.1)
                    &&& 0 <= found_at.0 < col && 0 <= found_at.1 < 8
                    &&& forall|c: int, r: int|
                        0 <= c < col && 0 <= r < 8 && (c != found_at.0 || r != found_at.1)
                            ==> !spec_short_candidate_ok(
                            self.board,
                            self.turn,
                            self.history.moves@,
                            parts,
                            c,
                            r,
                        )
                },
            decreases 8 - col,
        {
            let mut row: i8 = 0;
            while row < 8
                invariant
                    self.is_check == self.board.spec_is_check(self.turn),
                    parts.spec_wf(),
                    0 <= col < 8,
                    0 <= row <= 8,
                    found is None ==> forall|c: int, r: int|
                        0 <= c < 8 && 0 <= r < 8 && (c < col || (c == col && r < row))
                            ==> !spec_short_candidate_ok(
                            self.board,
                            self.turn,
                            self.history.moves@,
                            parts,
                            c,
                            r,
                        ),
                    found matches Some(mv) ==> {
                        &&& spec_short_candidate_ok(
                            self.board,
                            self.turn,
                            self.history.moves@,
                            parts,
                            found_at.0,
                            found_at.1,
                        )
                        &&& mv == spec_candidate_move(parts, found_at.0, found_at.1)
                        &&& 0 <= found_at.0 < 8 && 0 <= found_at.1 < 8
                        &&& (found_at.0 < col || (found_at.0 == col && found_at.1 < row))
                        &&& forall|c: int, r: int|
                            0 <= c < 8 && 0 <= r < 8 && (c < col || (c == col && r < row)) && (c
                                != found_at.0 || r != found_at.1) ==> !spec_short_candidate_ok(
                                self.board,
                                self.turn,
                                self.history.moves@,
                                parts,
                                c,
                                r,
                            )
                    },
                decreases 8 - row,
            {
                let candidate_ok: bool = self.check_candidate(parts, col, row);
                if candidate_ok {
                    if found.is_some() {
                        return Err(MoveError::AmbiguousNotation);
                    }
                    let mv = if let Some(promotion) = parts.promotion {
                        Move::with_promotion(col, row, parts.to_col, parts.to_row, promotion)
                    } else {
                        Move::new(col, row, parts.to_col, parts.to_row)
                    };
                    found = Some(mv);
                    proof {
                        found_at = (col as int, row as int);
                    }
                }
                row = row + 1;
            }
            col = col + 1;
        }

        match found {
            Some(mv) => {
                proof {
                    let (c, r): (int, int) = choose|c: int, r: int|
                        spec_short_candidate_ok(
                            self.board,
                            self.turn,
                            self.history.moves@,
                            parts,
                            c,
                            r,
                        );
                    assert(c == found_at.0 && r == found_at.1);
                }
                Ok(mv)
            },
            None => Err(MoveError::NoLegalMoveFound),
        }
    }

    /// Whether (col, row) is a surviving candidate origin for the parsed
    /// text.
    fn check_candidate(&self, parts: ShortParts, col: i8, row: i8) -> (r: bool)
        requires
            self.is_check == self.board.spec_is_check(self.turn),
            parts.spec_wf(),
            coord_in_bounds(col as int, row as int),
        ensures
            r == spec_short_candidate_ok(
                self.board,
                self.turn,
                self.history.moves@,
                parts,
                col as int,
                row as int,
            ),
    {
        if let Some(d) = parts.disambig_col {
            if col != d {
                return false;
            }
        }
        if let Some(d) = parts.disambig_row {
            if row != d {
                return false;
            }
        }
        let sq = *self.board.at(col, row);
        let Some((piece_type, piece_color)) = sq.piece() else {
            return false;
        };
        if piece_color != self.turn {
            return false;
        }
        if piece_type != parts.piece {
            return false;
        }

        let target_occupied = self.board.at(parts.to_col, parts.to_row).is_occupied();
        if parts.takes && !target_occupied && parts.piece != PieceType::Pawn {
            return false;
        }
        if !parts.takes && target_occupied {
            return false;
        }

        let mv = if let Some(promotion) = parts.promotion {
            Move::with_promotion(col, row, parts.to_col, parts.to_row, promotion)
        } else {
            Move::new(col, row, parts.to_col, parts.to_row)
        };
        if self.validate_move(&mv).is_err() {
            return false;
        }
        if parts.takes && !target_occupied && parts.piece == PieceType::Pawn {
            if self.board.is_en_passant_move(&mv).is_none() {
                return false;
            }
        }
        true
    }
}

} // verus!
