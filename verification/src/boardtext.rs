//! The textual board-diagram format: one line per rank (rank 8 first), each
//! square a two-character token (`--` light empty, `::` dark empty, or a
//! color letter `w`/`b` followed by a piece letter), whitespace-separated,
//! with an optional leading rank digit per line and an optional trailing
//! line of file letters. Parsing constructs a Board; emission produces the
//! same layout, so the two round-trip on piece placement.
use vstd::prelude::*;

use crate::board::{Board, BoardSquare, PieceColor, PieceType};
use crate::pos::coord_in_bounds;

verus! {

/// Why a diagram failed to parse; square-level variants carry the offending
/// position.
#[derive(Copy, Clone, PartialEq, Eq, Structural, Debug)]
pub enum BoardParseError {
    TooManyLines,
    TooManyTokens { row: i8 },
    InvalidDarkSquare { col: i8, row: i8 },
    InvalidLightSquare { col: i8, row: i8 },
    InvalidPieceColor { col: i8, row: i8 },
    InvalidPieceType { col: i8, row: i8 },
    InvalidToken { col: i8, row: i8 },
}

/// The whitespace that separates tokens and pads lines.
pub open spec fn spec_is_ws(c: char) -> bool {
    c == ' ' || c == '\t' || c == '\r' || c == '\n' || c == '\u{b}' || c == '\u{c}'
}

fn is_ws(c: char) -> (r: bool)
    ensures
        r == spec_is_ws(c),
{
    c == ' ' || c == '\t' || c == '\r' || c == '\n' || c == '\u{b}' || c == '\u{c}'
}

/// The index of the first newline at or after `pos`, or the length.
pub open spec fn spec_first_nl(s: Seq<char>, pos: int) -> int
    decreases s.len() - pos,
{
    if pos < 0 || pos >= s.len() {
        s.len() as int
    } else if s[pos] == '\n' {
        pos
    } else {
        spec_first_nl(s, pos + 1)
    }
}

/// The index of the first non-whitespace character in [pos, end), or `end`.
pub open spec fn spec_first_non_ws(s: Seq<char>, pos: int, end: int) -> int
    decreases end - pos,
{
    if pos < 0 || pos >= end || pos >= s.len() {
        end
    } else if !spec_is_ws(s[pos]) {
        pos
    } else {
        spec_first_non_ws(s, pos + 1, end)
    }
}

/// One past the last non-whitespace character in [pos, end), or `pos`.
pub open spec fn spec_last_non_ws_end(s: Seq<char>, pos: int, end: int) -> int
    decreases end - pos,
{
    if end <= pos || end > s.len() || end < 1 {
        pos
    } else if !spec_is_ws(s[end - 1]) {
        end
    } else {
        spec_last_non_ws_end(s, pos, end - 1)
    }
}

/// The index of the first whitespace character in [pos, end), or `end`.
pub open spec fn spec_first_ws(s: Seq<char>, pos: int, end: int) -> int
    decreases end - pos,
{
    if pos < 0 || pos >= end || pos >= s.len() {
        end
    } else if spec_is_ws(s[pos]) {
        pos
    } else {
        spec_first_ws(s, pos + 1, end)
    }
}

/// Scanning for whitespace never moves backwards or past the end.
proof fn lemma_first_ws_bounds(s: Seq<char>, pos: int, end: int)
    requires
        pos <= end,
    ensures
        pos <= spec_first_ws(s, pos, end) <= end,
    decreases end - pos,
{
    if pos < 0 || pos >= end || pos >= s.len() {
    } else if spec_is_ws(s[pos]) {
    } else {
        lemma_first_ws_bounds(s, pos + 1, end);
    }
}

/// A token count is never negative.
proof fn lemma_token_count_nonneg(s: Seq<char>, pos: int, end: int)
    ensures
        spec_token_count(s, pos, end) >= 0,
    decreases end - pos,
{
    if pos < 0 || pos >= end || pos >= s.len() {
    } else if spec_is_ws(s[pos]) {
        lemma_token_count_nonneg(s, pos + 1, end);
    } else {
        lemma_first_ws_bounds(s, pos + 1, end);
        lemma_token_count_nonneg(s, spec_first_ws(s, pos + 1, end), end);
    }
}

/// How many whitespace-separated tokens [pos, end) holds.
pub open spec fn spec_token_count(s: Seq<char>, pos: int, end: int) -> int
    decreases end - pos,
    via spec_token_count_decreases
{
    if pos < 0 || pos >= end || pos >= s.len() {
        0
    } else if spec_is_ws(s[pos]) {
        spec_token_count(s, pos + 1, end)
    } else {
        1 + spec_token_count(s, spec_first_ws(s, pos + 1, end), end)
    }
}

#[via_fn]
proof fn spec_token_count_decreases(s: Seq<char>, pos: int, end: int) {
    if !(pos < 0 || pos >= end || pos >= s.len()) && !spec_is_ws(s[pos]) {
        lemma_first_ws_bounds(s, pos + 1, end);
    }
}

fn first_nl(s: &str, len: usize, pos: usize) -> (r: usize)
    requires
        len == s@.len(),
        pos <= len,
    ensures
        r == spec_first_nl(s@, pos as int),
        pos <= r <= len,
        r < len ==> s@[r as int] == '\n',
    decreases len - pos,
{
    let mut i = pos;
    while i < len
        invariant
            len == s@.len(),
            pos <= i <= len,
            spec_first_nl(s@, pos as int) == spec_first_nl(s@, i as int),
        decreases len - i,
    {
        if s.get_char(i) == '\n' {
            return i;
        }
        i = i + 1;
    }
    len
}

fn first_non_ws(s: &str, len: usize, pos: usize, end: usize) -> (r: usize)
    requires
        len == s@.len(),
        pos <= end <= len,
    ensures
        r == spec_first_non_ws(s@, pos as int, end as int),
        pos <= r <= end,
        r < end ==> !spec_is_ws(s@[r as int]),
{
    let mut i = pos;
    while i < end
        invariant
            len == s@.len(),
            pos <= i <= end <= len,
            spec_first_non_ws(s@, pos as int, end as int) == spec_first_non_ws(
                s@,
                i as int,
                end as int,
            ),
        decreases end - i,
    {
        if !is_ws(s.get_char(i)) {
            return i;
        }
        i = i + 1;
    }
    end
}

fn last_non_ws_end(s: &str, len: usize, pos: usize, end: usize) -> (r: usize)
    requires
        len == s@.len(),
        pos <= end <= len,
    ensures
        r == spec_last_non_ws_end(s@, pos as int, end as int),
        pos <= r <= end,
        r > pos ==> !spec_is_ws(s@[r as int - 1]),
{
    let mut i = end;
    while i > pos
        invariant
            len == s@.len(),
            pos <= i <= end <= len,
            spec_last_non_ws_end(s@, pos as int, end as int) == spec_last_non_ws_end(
                s@,
                pos as int,
                i as int,
            ),
        decreases i,
    {
        if !is_ws(s.get_char(i - 1)) {
            return i;
        }
        i = i - 1;
    }
    pos
}

fn first_ws(s: &str, len: usize, pos: usize, end: usize) -> (r: usize)
    requires
        len == s@.len(),
        pos <= end <= len,
    ensures
        r == spec_first_ws(s@, pos as int, end as int),
        pos <= r <= end,
        r < end ==> spec_is_ws(s@[r as int]),
{
    let mut i = pos;
    while i < end
        invariant
            len == s@.len(),
            pos <= i <= end <= len,
            spec_first_ws(s@, pos as int, end as int) == spec_first_ws(s@, i as int, end as int),
        decreases end - i,
    {
        if is_ws(s.get_char(i)) {
            return i;
        }
        i = i + 1;
    }
    end
}

fn token_count(s: &str, len: usize, pos: usize, end: usize) -> (r: usize)
    requires
        len == s@.len(),
        pos <= end <= len,
    ensures
        r == spec_token_count(s@, pos as int, end as int),
{
    let mut count: usize = 0;
    let mut i = pos;
    while i < end
        invariant
            len == s@.len(),
            pos <= i <= end <= len,
            count <= i,
            spec_token_count(s@, pos as int, end as int) == count + spec_token_count(
                s@,
                i as int,
                end as int,
            ),
        decreases end - i,
    {
        if is_ws(s.get_char(i)) {
            i = i + 1;
        } else {
            count = count + 1;
            let next = first_ws(s, len, i + 1, end);
            proof {
                assert(spec_token_count(s@, i as int, end as int) == 1 + spec_token_count(
                    s@,
                    spec_first_ws(s@, i + 1, end as int),
                    end as int,
                ));
            }
            i = next;
        }
    }
    count
}


pub open spec fn spec_color_of_char(c: char) -> Option<PieceColor> {
    if c == 'w' {
        Some(PieceColor::White)
    } else if c == 'b' {
        Some(PieceColor::Black)
    } else {
        None
    }
}

pub open spec fn spec_piece_of_letter(c: char) -> Option<PieceType> {
    if c == 'p' {
        Some(PieceType::Pawn)
    } else if c == 'R' {
        Some(PieceType::Rook)
    } else if c == 'N' {
        Some(PieceType::Knight)
    } else if c == 'B' {
        Some(PieceType::Bishop)
    } else if c == 'Q' {
        Some(PieceType::Queen)
    } else if c == 'K' {
        Some(PieceType::King)
    } else {
        None
    }
}

/// What one square token [t, w) denotes at (col, row): an empty square
/// (parity-checked against the square's shade), a piece, or an error.
pub open spec fn spec_parse_token(s: Seq<char>, t: int, w: int, col: int, row: int) -> Result<
    Option<(PieceType, PieceColor)>,
    BoardParseError,
>
    recommends
        0 <= t,
        w <= s.len(),
        0 <= col,
        0 <= row,
{
    let tok_len = w - t;
    if tok_len == 2 && s[t] == ':' && s[t + 1] == ':' {
        if (col + row) % 2 != 0 {
            Err(BoardParseError::InvalidDarkSquare { col: col as i8, row: row as i8 })
        } else {
            Ok(None)
        }
    } else if tok_len == 2 && s[t] == '-' && s[t + 1] == '-' {
        if (col + row) % 2 != 1 {
            Err(BoardParseError::InvalidLightSquare { col: col as i8, row: row as i8 })
        } else {
            Ok(None)
        }
    } else if tok_len == 2 {
        match spec_color_of_char(s[t]) {
            None => Err(BoardParseError::InvalidPieceColor { col: col as i8, row: row as i8 }),
            Some(color) => match spec_piece_of_letter(s[t + 1]) {
                None => Err(BoardParseError::InvalidPieceType { col: col as i8, row: row as i8 }),
                Some(piece) => Ok(Some((piece, color))),
            },
        }
    } else {
        Err(BoardParseError::InvalidToken { col: col as i8, row: row as i8 })
    }
}

/// Folds the tokens of one line over the board: `j` counts tokens seen, and
/// when the line carries a leading rank-number token (`j0` is one) the first
/// token is skipped, so square `j - j0` of the rank gets each token.
pub open spec fn spec_parse_tokens(
    s: Seq<char>,
    t: int,
    end: int,
    j: int,
    j0: int,
    row: int,
    acc: Board,
) -> Result<Board, BoardParseError>
    decreases end - t,
    via spec_parse_tokens_decreases
{
    if t < 0 || t >= end || t >= s.len() {
        Ok(acc)
    } else if spec_is_ws(s[t]) {
        spec_parse_tokens(s, t + 1, end, j, j0, row, acc)
    } else {
        let w = spec_first_ws(s, t + 1, end);
        if j == 0 && j0 == 1 {
            spec_parse_tokens(s, w, end, j + 1, j0, row, acc)
        } else {
            match spec_parse_token(s, t, w, j - j0, row) {
                Err(e) => Err(e),
                Ok(None) => spec_parse_tokens(s, w, end, j + 1, j0, row, acc),
                Ok(Some((piece, color))) => spec_parse_tokens(
                    s,
                    w,
                    end,
                    j + 1,
                    j0,
                    row,
                    acc.spec_with_square(
                        j - j0,
                        row,
                        BoardSquare { piece_type: Some(piece), piece_color: color },
                    ),
                ),
            }
        }
    }
}

#[via_fn]
proof fn spec_parse_tokens_decreases(
    s: Seq<char>,
    t: int,
    end: int,
    j: int,
    j0: int,
    row: int,
    acc: Board,
) {
    if !(t < 0 || t >= end || t >= s.len()) && !spec_is_ws(s[t]) {
        lemma_first_ws_bounds(s, t + 1, end);
    }
}

/// One trimmed, nonempty line [a, b) read as rank `row`: at most nine
/// tokens, a nine-token line's first token being an ignored rank number.
pub open spec fn spec_parse_line(s: Seq<char>, a: int, b: int, row: int, acc: Board) -> Result<
    Board,
    BoardParseError,
> {
    if spec_token_count(s, a, b) > 9 {
        Err(BoardParseError::TooManyTokens { row: row as i8 })
    } else {
        spec_parse_tokens(
            s,
            a,
            b,
            0,
            if spec_token_count(s, a, b) == 9 {
                1
            } else {
                0
            },
            row,
            acc,
        )
    }
}

/// Scanning for a newline never moves backwards or past the end.
proof fn lemma_first_nl_bounds(s: Seq<char>, pos: int)
    requires
        0 <= pos <= s.len(),
    ensures
        pos <= spec_first_nl(s, pos) <= s.len(),
    decreases s.len() - pos,
{
    if !(pos < 0 || pos >= s.len()) && s[pos] != '\n' {
        lemma_first_nl_bounds(s, pos + 1);
    }
}

/// Folds the input from `pos` on over the board: newline-separated lines are
/// trimmed, empty ones skipped; nonempty line `i` is rank `7 - i`, the ninth
/// is ignored (a file-letter footer), and a tenth is an error.
pub open spec fn spec_parse_from(s: Seq<char>, pos: int, i: int, acc: Board) -> Result<
    Board,
    BoardParseError,
>
    decreases s.len() - pos,
    via spec_parse_from_decreases
{
    if pos < 0 || pos > s.len() {
        Ok(acc)
    } else {
        let e = spec_first_nl(s, pos);
        let a = spec_first_non_ws(s, pos, e);
        let b = spec_last_non_ws_end(s, pos, e);
        let empty_line = a >= b;
        if !empty_line && i >= 9 {
            Err(BoardParseError::TooManyLines)
        } else {
            let step: Result<Board, BoardParseError> = if empty_line || i == 8 {
                Ok(acc)
            } else {
                spec_parse_line(s, a, b, 7 - i, acc)
            };
            match step {
                Err(err) => Err(err),
                Ok(acc2) => if e >= s.len() {
                    Ok(acc2)
                } else {
                    spec_parse_from(
                        s,
                        e + 1,
                        if empty_line {
                            i
                        } else {
                            i + 1
                        },
                        acc2,
                    )
                },
            }
        }
    }
}

#[via_fn]
proof fn spec_parse_from_decreases(s: Seq<char>, pos: int, i: int, acc: Board) {
    if 0 <= pos <= s.len() {
        lemma_first_nl_bounds(s, pos);
    }
}

/// What parsing a whole diagram yields.
pub open spec fn spec_parse_board(s: Seq<char>) -> Result<Board, BoardParseError> {
    spec_parse_from(s, 0, 0, crate::board::spec_empty_board())
}

/// Reads one line's tokens into the board.
fn parse_line_exec(
    s: &str,
    len: usize,
    a: usize,
    b: usize,
    row: i8,
    board: &mut Board,
) -> (r: Result<(), BoardParseError>)
    requires
        len == s@.len(),
        a <= b <= len,
        0 <= row < 8,
    ensures
        r matches Ok(()) ==> spec_parse_line(s@, a as int, b as int, row as int, *old(board))
            == Ok::<Board, BoardParseError>(*final(board)),
        r matches Err(e) ==> spec_parse_line(s@, a as int, b as int, row as int, *old(board))
            == Err::<Board, BoardParseError>(e),
{
    let count = token_count(s, len, a, b);
    if count > 9 {
        return Err(BoardParseError::TooManyTokens { row });
    }
    let j0: usize = if count == 9 {
        1
    } else {
        0
    };

    let ghost goal = spec_parse_line(s@, a as int, b as int, row as int, *board);
    let mut t = a;
    let mut j: usize = 0;
    while t < b
        invariant
            len == s@.len(),
            a <= t <= b <= len,
            0 <= row < 8,
            j0 <= 1,
            j <= 9,
            j + spec_token_count(s@, t as int, b as int) == count,
            count <= 9,
            j0 == 1 <==> count == 9,
            goal == spec_parse_line(s@, a as int, b as int, row as int, *old(board)),
            goal == spec_parse_tokens(s@, t as int, b as int, j as int, j0 as int, row as int, *board),
        decreases b - t,
    {
        if is_ws(s.get_char(t)) {
            t = t + 1;
        } else {
            let w = first_ws(s, len, t + 1, b);
            proof {
                lemma_token_count_nonneg(s@, w as int, b as int);
                assert(spec_token_count(s@, t as int, b as int) == 1 + spec_token_count(
                    s@,
                    w as int,
                    b as int,
                ));
            }
            if j == 0 && j0 == 1 {
                j = j + 1;
                t = w;
            } else {
                let col = (j - j0) as i8;
                let tok_len = w - t;
                if tok_len == 2 && s.get_char(t) == ':' && s.get_char(t + 1) == ':' {
                    if ((col as i16) + (row as i16)) % 2 != 0 {
                        return Err(BoardParseError::InvalidDarkSquare { col, row });
                    }
                } else if tok_len == 2 && s.get_char(t) == '-' && s.get_char(t + 1) == '-' {
                    if ((col as i16) + (row as i16)) % 2 != 1 {
                        return Err(BoardParseError::InvalidLightSquare { col, row });
                    }
                } else if tok_len == 2 {
                    let color = match s.get_char(t) {
                        'w' => PieceColor::White,
                        'b' => PieceColor::Black,
                        _ => {
                            return Err(BoardParseError::InvalidPieceColor { col, row });
                        },
                    };
                    let piece = match s.get_char(t + 1) {
                        'p' => PieceType::Pawn,
                        'R' => PieceType::Rook,
                        'N' => PieceType::Knight,
                        'B' => PieceType::Bishop,
                        'Q' => PieceType::Queen,
                        'K' => PieceType::King,
                        _ => {
                            return Err(BoardParseError::InvalidPieceType { col, row });
                        },
                    };
                    let ghost before = *board;
                    board.set(col, row, piece, color);
                    proof {
                        broadcast use vstd::array::axiom_spec_array_update;
                        broadcast use vstd::array::axiom_array_ext_equal;

                        let updated = before.spec_with_square(
                            col as int,
                            row as int,
                            BoardSquare { piece_type: Some(piece), piece_color: color },
                        );
                        assert(0 <= row * 8 + col < 64) by (nonlinear_arith)
                            requires
                                0 <= col < 8,
                                0 <= row < 8,
                        ;
                        assert(board.squares@ =~= updated.squares@);
                        assert(board.squares =~= updated.squares);
                    }
                } else {
                    return Err(BoardParseError::InvalidToken { col, row });
                }
                j = j + 1;
                t = w;
            }
        }
    }
    Ok(())
}

impl Board {
    /// Parses a diagram into a board. Lines are ranks 8 down to 1; an
    /// optional leading rank digit per line and an optional trailing line of
    /// file letters are ignored; empty squares must match their shade
    /// (`::` dark, `--` light).
    pub fn from_string(input: &str) -> (r: Result<Board, BoardParseError>)
        ensures
            r == spec_parse_board(input@),
    {
        let len = input.unicode_len();
        let mut board = Board::empty();
        let mut pos: usize = 0;
        let mut i: usize = 0;
        let mut done = false;
        while !done
            invariant
                len == input@.len(),
                pos <= len,
                i <= 9,
                !done ==> spec_parse_board(input@) == spec_parse_from(
                    input@,
                    pos as int,
                    i as int,
                    board,
                ),
                done ==> spec_parse_board(input@) == Ok::<Board, BoardParseError>(board),
            decreases len - pos + (if done {
                0int
            } else {
                1
            }),
        {
            let e = first_nl(input, len, pos);
            let a = first_non_ws(input, len, pos, e);
            let b = last_non_ws_end(input, len, pos, e);
            if a < b {
                if i >= 9 {
                    return Err(BoardParseError::TooManyLines);
                }
                if i < 8 {
                    let row = (7 - i) as i8;
                    let ghost before = board;
                    if let Err(err) = parse_line_exec(input, len, a, b, row, &mut board) {
                        proof {
                            assert(spec_parse_from(input@, pos as int, i as int, before)
                                == Err::<Board, BoardParseError>(err));
                        }
                        return Err(err);
                    }
                }
                i = i + 1;
            }
            if e >= len {
                done = true;
            } else {
                pos = e + 1;
            }
        }
        Ok(board)
    }
}


pub open spec fn spec_color_char(c: PieceColor) -> char {
    match c {
        PieceColor::White => 'w',
        PieceColor::Black => 'b',
    }
}

pub open spec fn spec_piece_letter(t: PieceType) -> char {
    match t {
        PieceType::Pawn => 'p',
        PieceType::Bishop => 'B',
        PieceType::Knight => 'N',
        PieceType::Rook => 'R',
        PieceType::Queen => 'Q',
        PieceType::King => 'K',
    }
}

/// The two characters a square displays as: its piece, or its shade.
pub open spec fn spec_square_chars(sq: BoardSquare, col: int, row: int) -> Seq<char> {
    match sq.piece_type {
        Some(t) => seq![spec_color_char(sq.piece_color), spec_piece_letter(t)],
        None => if (row + col) % 2 == 0 {
            seq![':', ':']
        } else {
            seq!['-', '-']
        },
    }
}

/// One rank's squares from `col` on, each preceded by a space, closed by a
/// newline.
pub open spec fn spec_row_squares(b: Board, row: int, col: int) -> Seq<char>
    decreases 8 - col,
{
    if col >= 8 {
        seq!['\n']
    } else {
        seq![' '] + spec_square_chars(b.spec_at(col, row), col, row) + spec_row_squares(
            b,
            row,
            col + 1,
        )
    }
}

/// One display line: an optional rank digit, then the rank's squares.
pub open spec fn spec_display_row(b: Board, row: int, helpers: bool) -> Seq<char> {
    (if helpers {
        seq![crate::moves::spec_rank_char(row), ' ']
    } else {
        Seq::<char>::empty()
    }) + spec_row_squares(b, row, 0)
}

/// The display lines for ranks `row` down to 1.
pub open spec fn spec_display_rows(b: Board, row: int, helpers: bool) -> Seq<char>
    decreases row + 1,
{
    if row < 0 {
        Seq::<char>::empty()
    } else {
        spec_display_row(b, row, helpers) + spec_display_rows(b, row - 1, helpers)
    }
}

/// The file-letter footer under the board.
pub open spec fn spec_symbols_row() -> Seq<char> {
    seq![
        ' ',
        ' ',
        ' ',
        ' ',
        'a',
        ' ',
        ' ',
        'b',
        ' ',
        ' ',
        'c',
        ' ',
        ' ',
        'd',
        ' ',
        ' ',
        'e',
        ' ',
        ' ',
        'f',
        ' ',
        ' ',
        'g',
        ' ',
        ' ',
        'h',
        '\n',
    ]
}

/// The whole diagram: a leading newline, ranks 8 down to 1, and with
/// helpers the rank digits and the file-letter footer.
pub open spec fn spec_display(b: Board, helpers: bool) -> Seq<char> {
    seq!['\n'] + spec_display_rows(b, 7, helpers) + (if helpers {
        spec_symbols_row()
    } else {
        Seq::<char>::empty()
    })
}

impl Board {
    /// Renders the board as diagram text, optionally with rank digits and a
    /// file-letter footer.
    pub fn get_display_str(&self, print_col_row_helpers: bool) -> (r: String)
        ensures
            r@ == spec_display(*self, print_col_row_helpers),
    {
        let ghost target = spec_display(*self, print_col_row_helpers);
        let mut result = String::new();
        crate::moves::push_char(&mut result, '\n');

        let mut row: i8 = 7;
        while row >= 0
            invariant
                -1 <= row <= 7,
                result@ + spec_display_rows(*self, row as int, print_col_row_helpers) =~= seq![
                    '\n',
                ] + spec_display_rows(*self, 7, print_col_row_helpers),
            decreases row + 1,
        {
            if print_col_row_helpers {
                crate::moves::push_char(&mut result, (49u8 + (row as u8)) as char);
                crate::moves::push_char(&mut result, ' ');
            }

            let ghost row_target = result@ + spec_row_squares(*self, row as int, 0);
            let mut col: i8 = 0;
            while col < 8
                invariant
                    0 <= col <= 8,
                    0 <= row <= 7,
                    result@ + spec_row_squares(*self, row as int, col as int) =~= row_target,
                decreases 8 - col,
            {
                crate::moves::push_char(&mut result, ' ');
                let square = *self.at(col, row);
                match square.piece_type {
                    Some(t) => {
                        let color_char = match square.piece_color {
                            PieceColor::White => 'w',
                            PieceColor::Black => 'b',
                        };
                        let piece_char = match t {
                            PieceType::Pawn => 'p',
                            PieceType::Bishop => 'B',
                            PieceType::Knight => 'N',
                            PieceType::Rook => 'R',
                            PieceType::Queen => 'Q',
                            PieceType::King => 'K',
                        };
                        crate::moves::push_char(&mut result, color_char);
                        crate::moves::push_char(&mut result, piece_char);
                    },
                    None => {
                        let shade = if ((row as i16) + (col as i16)) % 2 == 0 {
                            ':'
                        } else {
                            '-'
                        };
                        crate::moves::push_char(&mut result, shade);
                        crate::moves::push_char(&mut result, shade);
                    },
                }
                col = col + 1;
            }
            crate::moves::push_char(&mut result, '\n');
            proof {
                assert(result@ =~= row_target);
            }
            row = row - 1;
        }

        if print_col_row_helpers {
            proof {
                reveal_strlit("    a  b  c  d  e  f  g  h\n");
                assert("    a  b  c  d  e  f  g  h\n"@ =~= spec_symbols_row());
            }
            result.append("    a  b  c  d  e  f  g  h\n");
        }
        proof {
            assert(result@ =~= target);
        }
        result
    }
}


/// Both characters of a square's display token are printable, never
/// whitespace, and never a newline.
proof fn lemma_square_chars_shape(sq: BoardSquare, col: int, row: int)
    ensures
        spec_square_chars(sq, col, row).len() == 2,
        !spec_is_ws(spec_square_chars(sq, col, row)[0]),
        !spec_is_ws(spec_square_chars(sq, col, row)[1]),
{
}

/// The shape of a displayed rank from square `col` on: three characters per
/// square (a space, then the token) and a closing newline, nothing else
/// whitespace or newline.
proof fn lemma_row_squares_shape(b: Board, row: int, col: int)
    requires
        0 <= col <= 8,
    ensures
        spec_row_squares(b, row, col).len() == 3 * (8 - col) + 1,
        spec_row_squares(b, row, col)[3 * (8 - col)] == '\n',
        forall|m: int|
            0 <= m < 8 - col ==> #[trigger] spec_row_squares(b, row, col)[3 * m] == ' ',
        forall|m: int|
            0 <= m < 8 - col ==> #[trigger] spec_row_squares(b, row, col)[3 * m + 1]
                == spec_square_chars(b.spec_at(col + m, row), col + m, row)[0],
        forall|m: int|
            0 <= m < 8 - col ==> #[trigger] spec_row_squares(b, row, col)[3 * m + 2]
                == spec_square_chars(b.spec_at(col + m, row), col + m, row)[1],
        forall|k: int|
            0 <= k < 3 * (8 - col) ==> #[trigger] spec_row_squares(b, row, col)[k] != '\n',
        forall|k: int|
            0 <= k < 3 * (8 - col) && k % 3 != 0 ==> !spec_is_ws(
                #[trigger] spec_row_squares(b, row, col)[k],
            ),
    decreases 8 - col,
{
    if col >= 8 {
    } else {
        lemma_row_squares_shape(b, row, col + 1);
        lemma_square_chars_shape(b.spec_at(col, row), col, row);
        let t = spec_row_squares(b, row, col);
        let rest = spec_row_squares(b, row, col + 1);
        let sq = spec_square_chars(b.spec_at(col, row), col, row);
        assert(t =~= seq![' '] + sq + rest);
        assert forall|m: int| 0 <= m < 8 - col implies #[trigger] spec_row_squares(b, row, col)[3
            * m] == ' ' by {
            if m > 0 {
                assert(t[3 * m] == rest[3 * (m - 1)]);
            }
        }
        assert forall|m: int| 0 <= m < 8 - col implies #[trigger] spec_row_squares(b, row, col)[3
            * m + 1] == spec_square_chars(b.spec_at(col + m, row), col + m, row)[0] by {
            if m > 0 {
                assert(t[3 * m + 1] == rest[3 * (m - 1) + 1]);
            }
        }
        assert forall|m: int| 0 <= m < 8 - col implies #[trigger] spec_row_squares(b, row, col)[3
            * m + 2] == spec_square_chars(b.spec_at(col + m, row), col + m, row)[1] by {
            if m > 0 {
                assert(t[3 * m + 2] == rest[3 * (m - 1) + 2]);
            }
        }
        assert forall|k: int| 0 <= k < 3 * (8 - col) implies #[trigger] t[k] != '\n' && (k % 3 != 0
            ==> !spec_is_ws(t[k])) by {
            let m = k / 3;
            let o = k % 3;
            assert(k == 3 * m + o);
            assert(t[3 * m] == ' ');
            if o == 1 {
                assert(t[3 * m + 1] == spec_square_chars(
                    b.spec_at(col + m, row),
                    col + m,
                    row,
                )[0]);
                lemma_square_chars_shape(b.spec_at(col + m, row), col + m, row);
            } else if o == 2 {
                assert(t[3 * m + 2] == spec_square_chars(
                    b.spec_at(col + m, row),
                    col + m,
                    row,
                )[1]);
                lemma_square_chars_shape(b.spec_at(col + m, row), col + m, row);
            }
        }
    }
}

/// Evaluates the newline scan over a region known to be newline-free.
proof fn lemma_first_nl_eval(s: Seq<char>, p: int, e: int)
    requires
        0 <= p <= e <= s.len(),
        forall|k: int| p <= k < e ==> #[trigger] s[k] != '\n',
        e < s.len() ==> s[e] == '\n',
    ensures
        spec_first_nl(s, p) == e,
    decreases e - p,
{
    if p < e {
        lemma_first_nl_eval(s, p + 1, e);
    }
}

/// Evaluates the non-whitespace scan over a region known to start with
/// whitespace up to `a`.
proof fn lemma_first_non_ws_eval(s: Seq<char>, p: int, end: int, a: int)
    requires
        0 <= p <= a <= end <= s.len(),
        forall|k: int| p <= k < a ==> spec_is_ws(#[trigger] s[k]),
        a < end ==> !spec_is_ws(s[a]),
    ensures
        spec_first_non_ws(s, p, end) == if a < end {
            a
        } else {
            end
        },
    decreases a - p,
{
    if p < a {
        lemma_first_non_ws_eval(s, p + 1, end, a);
    }
}

/// Evaluates the right-to-left whitespace trim over a region known to end
/// with whitespace after `bb`.
proof fn lemma_last_non_ws_eval(s: Seq<char>, p: int, end: int, bb: int)
    requires
        0 <= p <= bb <= end <= s.len(),
        forall|k: int| bb <= k < end ==> spec_is_ws(#[trigger] s[k]),
        bb > p ==> !spec_is_ws(s[bb - 1]),
    ensures
        spec_last_non_ws_end(s, p, end) == if bb > p {
            bb
        } else {
            p
        },
    decreases end - bb,
{
    if bb < end {
        lemma_last_non_ws_eval(s, p, end - 1, bb);
    }
}

/// Evaluates the whitespace scan over a region known to be solid up to `w`.
proof fn lemma_first_ws_eval(s: Seq<char>, p: int, end: int, w: int)
    requires
        0 <= p <= w <= end <= s.len(),
        forall|k: int| p <= k < w ==> !spec_is_ws(#[trigger] s[k]),
        w < end ==> spec_is_ws(s[w]),
    ensures
        spec_first_ws(s, p, end) == if w < end {
            w
        } else {
            end
        },
    decreases w - p,
{
    if p < w {
        lemma_first_ws_eval(s, p + 1, end, w);
    }
}


/// The accumulator after reading rank `row`'s tokens from square `col` on:
/// occupied squares are written, empty ones leave it untouched.
pub open spec fn spec_fill_row(acc: Board, b: Board, row: int, col: int) -> Board
    decreases 8 - col,
{
    if col >= 8 {
        acc
    } else {
        let next = if b.spec_at(col, row).spec_is_occupied() {
            acc.spec_with_square(col, row, b.spec_at(col, row))
        } else {
            acc
        };
        spec_fill_row(next, b, row, col + 1)
    }
}

/// What each square holds after one rank is read.
proof fn lemma_fill_row_at(acc: Board, b: Board, row: int, col: int)
    requires
        0 <= col <= 8,
        0 <= row < 8,
    ensures
        forall|c: int, r: int|
            coord_in_bounds(c, r) ==> #[trigger] spec_fill_row(acc, b, row, col).spec_at(c, r)
                == (if r == row && col <= c && b.spec_at(c, r).spec_is_occupied() {
                b.spec_at(c, r)
            } else {
                acc.spec_at(c, r)
            }),
    decreases 8 - col,
{
    broadcast use vstd::array::axiom_spec_array_update;

    if col >= 8 {
    } else {
        let next = if b.spec_at(col, row).spec_is_occupied() {
            acc.spec_with_square(col, row, b.spec_at(col, row))
        } else {
            acc
        };
        lemma_index_bounds_inj(col, row);
        lemma_fill_row_at(next, b, row, col + 1);
    }
}

/// In-bounds coordinates map injectively into the square array.
proof fn lemma_index_bounds_inj(col: int, row: int)
    requires
        coord_in_bounds(col, row),
    ensures
        0 <= row * 8 + col < 64,
        forall|c: int, r: int|
            coord_in_bounds(c, r) && (c != col || r != row) ==> r * 8 + c != row * 8 + col,
{
    assert(0 <= row * 8 + col < 64) by (nonlinear_arith)
        requires
            0 <= col < 8,
            0 <= row < 8,
    ;
    assert forall|c: int, r: int|
        coord_in_bounds(c, r) && (c != col || r != row) implies r * 8 + c != row * 8 + col by {
        assert(r * 8 + c != row * 8 + col) by (nonlinear_arith)
            requires
                0 <= c < 8,
                0 <= r < 8,
                0 <= col < 8,
                0 <= row < 8,
                (c != col || r != row),
        ;
    }
}

/// Reading a displayed rank's remaining tokens writes exactly that rank's
/// occupied squares: the text at `p` is the tail of the rank's display from
/// square `col`, and parsing it folds `spec_fill_row` over the accumulator.
proof fn lemma_parse_row_tokens(
    s: Seq<char>,
    b: Board,
    row: int,
    col: int,
    p: int,
    eline: int,
    j: int,
    j0: int,
    acc: Board,
)
    requires
        0 <= col <= 8,
        0 <= row < 8,
        j0 == 0 || j0 == 1,
        j == col + j0,
        0 <= p,
        p + 3 * (8 - col) == eline <= s.len(),
        forall|k: int|
            0 <= k < 3 * (8 - col) ==> #[trigger] s[p + k] == spec_row_squares(b, row, col)[k],
    ensures
        spec_token_count(s, p, eline) == 8 - col,
        spec_parse_tokens(s, p, eline, j, j0, row, acc) == Ok::<Board, BoardParseError>(
            spec_fill_row(acc, b, row, col),
        ),
    decreases 8 - col,
{
    if col >= 8 {
    } else {
        lemma_row_squares_shape(b, row, col);
        let t = spec_row_squares(b, row, col);
        let sq = spec_square_chars(b.spec_at(col, row), col, row);
        assert(s[p + 0] == t[3 * 0int]);
        assert(s[p] == ' ');
        assert(s[p + 1] == t[3 * 0int + 1]);
        assert(s[p + 2] == t[3 * 0int + 2]);
        assert(s[p + 1] == sq[0] && s[p + 2] == sq[1]);
        lemma_square_chars_shape(b.spec_at(col, row), col, row);
        if col + 1 < 8 {
            assert(s[p + 3] == t[3 * 1int]);
            assert(spec_is_ws(s[p + 3]));
        }
        lemma_first_ws_eval(s, p + 2, eline, p + 3);
        assert(spec_first_ws(s, p + 2, eline) == p + 3);

        let parsed = spec_parse_token(s, p + 1, p + 3, col, row);
        match b.spec_at(col, row).piece_type {
            Some(piece) => {
                assert(sq[0] == spec_color_char(b.spec_at(col, row).piece_color));
                assert(sq[1] == spec_piece_letter(piece));
                assert(parsed == Ok::<Option<(PieceType, PieceColor)>, BoardParseError>(
                    Some((piece, b.spec_at(col, row).piece_color)),
                ));
            },
            None => {
                assert(parsed == Ok::<Option<(PieceType, PieceColor)>, BoardParseError>(None));
            },
        }

        let next = if b.spec_at(col, row).spec_is_occupied() {
            acc.spec_with_square(col, row, b.spec_at(col, row))
        } else {
            acc
        };
        assert forall|k: int| 0 <= k < 3 * (8 - (col + 1)) implies #[trigger] s[(p + 3) + k]
            == spec_row_squares(b, row, col + 1)[k] by {
            assert(s[p + (3 + k)] == t[3 + k]);
            assert(t =~= seq![' '] + sq + spec_row_squares(b, row, col + 1));
            assert(t[3 + k] == spec_row_squares(b, row, col + 1)[k]);
        }
        lemma_parse_row_tokens(s, b, row, col + 1, p + 3, eline, j + 1, j0, next);

        match b.spec_at(col, row).piece_type {
            Some(piece) => {
                assert(next == acc.spec_with_square(
                    col,
                    row,
                    BoardSquare { piece_type: Some(piece), piece_color: b.spec_at(col, row).piece_color },
                ));
            },
            None => {},
        }
        assert(spec_parse_tokens(s, p, eline, j, j0, row, acc) == spec_parse_tokens(
            s,
            p + 1,
            eline,
            j,
            j0,
            row,
            acc,
        ));
        assert(spec_token_count(s, p + 1, eline) == 1 + spec_token_count(s, p + 3, eline));
        assert(spec_token_count(s, p, eline) == spec_token_count(s, p + 1, eline));
    }
}


/// The accumulator after reading ranks `row` down to 1.
pub open spec fn spec_fill_rows(acc: Board, b: Board, row: int) -> Board
    decreases row + 1,
{
    if row < 0 {
        acc
    } else {
        spec_fill_rows(spec_fill_row(acc, b, row, 0), b, row - 1)
    }
}

/// What each square holds after the ranks `row` down to 1 are read.
proof fn lemma_fill_rows_at(acc: Board, b: Board, row: int)
    requires
        -1 <= row <= 7,
    ensures
        forall|c: int, r: int|
            coord_in_bounds(c, r) ==> #[trigger] spec_fill_rows(acc, b, row).spec_at(c, r) == (if r
                <= row && b.spec_at(c, r).spec_is_occupied() {
                b.spec_at(c, r)
            } else {
                acc.spec_at(c, r)
            }),
    decreases row + 1,
{
    if row >= 0 {
        lemma_fill_row_at(acc, b, row, 0);
        lemma_fill_rows_at(spec_fill_row(acc, b, row, 0), b, row - 1);
    }
}

/// A displayed rank is 27 characters with the rank digit, 25 without.
proof fn lemma_display_rows_len(b: Board, row: int, helpers: bool)
    requires
        -1 <= row <= 7,
    ensures
        spec_display_rows(b, row, helpers).len() == (if helpers {
            27int
        } else {
            25
        }) * (row + 1),
    decreases row + 1,
{
    if row >= 0 {
        lemma_display_rows_len(b, row - 1, helpers);
        lemma_row_squares_shape(b, row, 0);
    }
}

/// The rank digit is a printable character: not a newline, not whitespace.
proof fn lemma_rank_char_shape(row: int)
    requires
        0 <= row < 8,
    ensures
        crate::moves::spec_rank_char(row) != '\n',
        !spec_is_ws(crate::moves::spec_rank_char(row)),
{
    assert(crate::moves::spec_rank_char(row) as int == 49 + row);
}

/// Parsing the displayed ranks `row` down to 1, as nonempty lines numbered
/// from `i` onward, writes exactly those ranks' occupied squares and leaves
/// the walk just past the ranks' text, about to read line eight.
proof fn lemma_parse_rows(
    s: Seq<char>,
    b: Board,
    row: int,
    pos: int,
    i: int,
    acc: Board,
    helpers: bool,
)
    requires
        -1 <= row <= 7,
        i == 7 - row,
        0 <= pos,
        pos + spec_display_rows(b, row, helpers).len() <= s.len(),
        forall|k: int|
            0 <= k < spec_display_rows(b, row, helpers).len() ==> #[trigger] s[pos + k]
                == spec_display_rows(b, row, helpers)[k],
    ensures
        spec_parse_from(s, pos, i, acc) == spec_parse_from(
            s,
            pos + spec_display_rows(b, row, helpers).len(),
            8,
            spec_fill_rows(acc, b, row),
        ),
    decreases row + 1,
{
    lemma_display_rows_len(b, row, helpers);
    if row >= 0 {
        let row_len: int = if helpers {
            27
        } else {
            25
        };
        let off: int = if helpers {
            2
        } else {
            0
        };
        let j0: int = if helpers {
            1
        } else {
            0
        };
        let rows_text = spec_display_rows(b, row, helpers);
        let row_text = spec_row_squares(b, row, 0);
        let rest_text = spec_display_rows(b, row - 1, helpers);
        lemma_row_squares_shape(b, row, 0);
        lemma_display_rows_len(b, row - 1, helpers);
        assert(spec_display_row(b, row, helpers) =~= (if helpers {
            seq![crate::moves::spec_rank_char(row), ' ']
        } else {
            Seq::<char>::empty()
        }) + row_text);
        assert(rows_text =~= spec_display_row(b, row, helpers) + rest_text);
        assert forall|k: int| 0 <= k < 25 implies #[trigger] s[(pos + off) + k] == row_text[k] by {
            assert(s[pos + (off + k)] == rows_text[off + k]);
        }
        if helpers {
            assert(s[pos + 0] == rows_text[0]);
            assert(s[pos] == crate::moves::spec_rank_char(row));
            lemma_rank_char_shape(row);
            assert(s[pos + 1] == rows_text[1]);
            assert(s[pos + 1] == ' ');
        }

        let e = pos + row_len - 1;
        assert forall|k: int| pos <= k < e implies #[trigger] s[k] != '\n' by {
            if k >= pos + off {
                assert(s[(pos + off) + (k - pos - off)] == row_text[k - pos - off]);
            }
        }
        assert(s[(pos + off) + 24] == row_text[24]);
        assert(s[e] == '\n');
        lemma_first_nl_eval(s, pos, e);

        assert(s[(pos + off) + 0] == row_text[3 * 0int]);
        assert(s[pos + off] == ' ');
        assert(s[(pos + off) + 1] == row_text[3 * 0int + 1]);
        assert(!spec_is_ws(s[pos + off + 1]));
        if helpers {
            lemma_first_non_ws_eval(s, pos, e, pos);
            assert(spec_first_non_ws(s, pos, e) == pos);
        } else {
            lemma_first_non_ws_eval(s, pos, e, pos + 1);
            assert(spec_first_non_ws(s, pos, e) == pos + 1);
        }
        let a = spec_first_non_ws(s, pos, e);

        assert(s[(pos + off) + 23] == row_text[23]);
        assert(!spec_is_ws(s[e - 1]));
        lemma_last_non_ws_eval(s, pos, e, e);
        assert(spec_last_non_ws_end(s, pos, e) == e);

        lemma_parse_row_tokens(s, b, row, 0, pos + off, e, j0, j0, acc);
        let filled = spec_fill_row(acc, b, row, 0);
        assert(spec_token_count(s, pos + off, e) == 8);
        assert(spec_parse_tokens(s, pos + off, e, j0, j0, row, acc) == Ok::<
            Board,
            BoardParseError,
        >(filled));

        if helpers {
            lemma_first_ws_eval(s, pos + 1, e, pos + 1);
            assert(spec_first_ws(s, pos + 1, e) == pos + 1);
            assert(spec_token_count(s, pos + 1, e) == spec_token_count(s, pos + 2, e));
            assert(spec_token_count(s, pos, e) == 1 + spec_token_count(s, pos + 1, e));
            assert(spec_token_count(s, pos, e) == 9);
            assert(spec_parse_tokens(s, pos + 1, e, 1, 1, row, acc) == spec_parse_tokens(
                s,
                pos + 2,
                e,
                1,
                1,
                row,
                acc,
            ));
            assert(spec_parse_tokens(s, pos, e, 0, 1, row, acc) == spec_parse_tokens(
                s,
                pos + 1,
                e,
                1,
                1,
                row,
                acc,
            ));
            assert(spec_parse_line(s, a, e, row, acc) == Ok::<Board, BoardParseError>(filled));
        } else {
            assert(spec_token_count(s, pos, e) == spec_token_count(s, pos + 1, e));
            assert(spec_token_count(s, pos + 1, e) == 8);
            assert(spec_parse_tokens(s, pos, e, 0, 0, row, acc) == spec_parse_tokens(
                s,
                pos + 1,
                e,
                0,
                0,
                row,
                acc,
            ));
            assert(spec_parse_line(s, a, e, row, acc) == Ok::<Board, BoardParseError>(filled));
        }

        assert forall|k: int| 0 <= k < rest_text.len() implies #[trigger] s[(e + 1) + k]
            == rest_text[k] by {
            assert(s[pos + (row_len + k)] == rows_text[row_len + k]);
            assert(rows_text[row_len + k] == rest_text[k]);
        }
        lemma_parse_rows(s, b, row - 1, e + 1, i + 1, filled, helpers);
        assert(7 - i == row);
        assert(e < s.len());
        assert(spec_parse_from(s, pos, i, acc) == spec_parse_from(s, e + 1, i + 1, filled));
    }
}

/// Diagram round trip: emitting any board whose empty squares are canonical
/// as diagram text — with or without the rank digits and file-letter footer —
/// and parsing the text back yields the same board, so parsing and
/// re-emitting a diagram preserves piece placement exactly.
pub proof fn lemma_diagram_round_trip(b: Board, helpers: bool)
    requires
        b.spec_canonical(),
    ensures
        spec_parse_board(spec_display(b, helpers)) == Ok::<Board, BoardParseError>(b),
{
    broadcast use vstd::array::axiom_spec_array_fill_for_copy_type;
    broadcast use vstd::array::axiom_array_ext_equal;

    let s = spec_display(b, helpers);
    let rows_text = spec_display_rows(b, 7, helpers);
    lemma_display_rows_len(b, 7, helpers);
    let rows_len: int = if helpers {
        216
    } else {
        200
    };
    let footer = spec_symbols_row();
    assert(s =~= seq!['\n'] + rows_text + (if helpers {
        footer
    } else {
        Seq::<char>::empty()
    }));

    assert(s[0] == '\n');
    lemma_first_nl_eval(s, 0, 0);
    assert(spec_first_nl(s, 0) == 0);
    assert(spec_first_non_ws(s, 0, 0) == 0);
    assert(spec_last_non_ws_end(s, 0, 0) == 0);

    let empty = crate::board::spec_empty_board();
    assert forall|k: int| 0 <= k < rows_text.len() implies #[trigger] s[1 + k]
        == rows_text[k] by {}
    lemma_parse_rows(s, b, 7, 1, 0, empty, helpers);
    assert(spec_parse_from(s, 0, 0, empty) == spec_parse_from(s, 1, 0, empty));

    let res = spec_fill_rows(empty, b, 7);
    assert(spec_parse_from(s, 1, 0, empty) == spec_parse_from(s, 1 + rows_len, 8, res));

    if helpers {
        let fp = 1 + rows_len;
        assert forall|k: int| 0 <= k < 27 implies #[trigger] s[fp + k] == footer[k] by {}
        let ef = fp + 26;
        assert forall|k: int| fp <= k < ef implies #[trigger] s[k] != '\n' by {
            assert(s[fp + (k - fp)] == footer[k - fp]);
        }
        assert(s[fp + 26] == footer[26]);
        assert(s[ef] == '\n');
        lemma_first_nl_eval(s, fp, ef);
        assert(s[fp + 4] == footer[4]);
        assert forall|k: int| fp <= k < fp + 4 implies spec_is_ws(#[trigger] s[k]) by {
            assert(s[fp + (k - fp)] == footer[k - fp]);
        }
        lemma_first_non_ws_eval(s, fp, ef, fp + 4);
        assert(s[fp + 25] == footer[25]);
        assert(!spec_is_ws(s[ef - 1]));
        lemma_last_non_ws_eval(s, fp, ef, ef);
        assert(spec_last_non_ws_end(s, fp, ef) == ef);
        assert(ef < s.len());
        assert(spec_parse_from(s, fp, 8, res) == spec_parse_from(s, ef + 1, 9, res));
        assert(ef + 1 == s.len());
        assert(spec_first_nl(s, s.len() as int) == s.len());
        assert(spec_parse_from(s, s.len() as int, 9, res) == Ok::<Board, BoardParseError>(res));
    } else {
        assert(1 + rows_len == s.len());
        assert(spec_first_nl(s, s.len() as int) == s.len());
        assert(spec_parse_from(s, s.len() as int, 8, res) == Ok::<Board, BoardParseError>(res));
    }

    lemma_fill_rows_at(empty, b, 7);
    assert forall|c: int, r: int| coord_in_bounds(c, r) implies #[trigger] res.spec_at(c, r)
        == b.spec_at(c, r) by {
        lemma_index_bounds_inj(c, r);
        assert(empty.spec_at(c, r) == BoardSquare::spec_empty());
        if !b.spec_at(c, r).spec_is_occupied() {
            assert(b.spec_at(c, r).spec_is_canonical());
        }
    }
    assert forall|k: int| 0 <= k < 64 implies res.squares@[k] == b.squares@[k] by {
        let c = k % 8;
        let r = k / 8;
        lemma_index_bounds_inj(c, r);
        assert(k == r * 8 + c);
        assert(res.spec_at(c, r) == b.spec_at(c, r));
    }
    assert(res.squares@ =~= b.squares@);
    assert(res.squares =~= b.squares);
}

} // verus!
