//! An immutable 2D board coordinate: column (file) and row (rank), each
//! meaningful in `0..8`, together with algebraic-notation conversion,
//! a bounds test and offset arithmetic.
use vstd::prelude::*;

verus! {

/// A board coordinate. `col` 0..8 maps to files a..h, `row` 0..8 maps to
/// ranks 1..8. Values outside that range are representable (offsets and the
/// sentinel produced by `invalid`) and are screened with `is_out_of_bounds`.
#[derive(Copy, Clone, PartialEq, Eq, Structural, Debug)]
pub struct Pos {
    pub col: i8,
    pub row: i8,
}

/// True when a (col, row) pair denotes a real board square.
pub open spec fn coord_in_bounds(col: int, row: int) -> bool {
    0 <= col < 8 && 0 <= row < 8
}

impl Pos {
    /// True when this coordinate denotes a real board square.
    pub open spec fn spec_in_bounds(self) -> bool {
        coord_in_bounds(self.col as int, self.row as int)
    }

    pub fn new(col: i8, row: i8) -> (r: Pos)
        ensures
            r.col == col,
            r.row == row,
    {
        Pos { col, row }
    }

    /// Parses two-character algebraic notation (file letter `a`..`h`, rank
    /// digit `1`..`8`) into a coordinate. Any other input is rejected with a
    /// message naming the first offending part.
    pub fn from_notation(input: &str) -> (r: Result<Pos, &'static str>)
        ensures
            input@.len() != 2 ==> r is Err,
            input@.len() == 2 && !('a' <= input@[0] <= 'h') ==> r is Err,
            input@.len() == 2 && 'a' <= input@[0] <= 'h' && !('1' <= input@[1] <= '8') ==> r is Err,
            (input@.len() == 2 && 'a' <= input@[0] <= 'h' && '1' <= input@[1] <= '8') <==> r is Ok,
            r matches Ok(p) ==> {
                &&& p.col == input@[0] as int - 'a' as int
                &&& p.row == input@[1] as int - '1' as int
                &&& p.spec_in_bounds()
            },
    {
        let len = input.unicode_len();
        if len != 2 {
            return Err("Invalid position notation length");
        }
        let col = input.get_char(0);
        let row = input.get_char(1);

        if (col as u32) < ('a' as u32) || (col as u32) > ('h' as u32) {
            return Err("Invalid column in position notation");
        }
        if (row as u32) < ('1' as u32) || (row as u32) > ('8' as u32) {
            return Err("Invalid row in position notation");
        }

        Ok(Pos { col: (col as u32 - 'a' as u32) as i8, row: (row as u32 - '1' as u32) as i8 })
    }

    pub fn col(&self) -> (r: i8)
        ensures
            r == self.col,
    {
        self.col
    }

    pub fn row(&self) -> (r: i8)
        ensures
            r == self.row,
    {
        self.row
    }

    pub fn tuple(&self) -> (r: (i8, i8))
        ensures
            r == (self.col, self.row),
    {
        (self.col, self.row)
    }

    pub fn is_out_of_bounds(&self) -> (r: bool)
        ensures
            r == !self.spec_in_bounds(),
    {
        self.col < 0 || self.col > 7 || self.row < 0 || self.row > 7
    }

    /// A sentinel coordinate that lies outside the board.
    pub fn invalid() -> (r: Pos)
        ensures
            r == (Pos { col: -1 as i8, row: -1 as i8 }),
            !r.spec_in_bounds(),
    {
        Pos { col: -1, row: -1 }
    }

    /// Componentwise offset addition; the result may leave the board and must
    /// be screened with `is_out_of_bounds` before use as a square.
    pub fn offset(&self, other: &Pos) -> (r: Pos)
        requires
            -128 <= self.col + other.col <= 127,
            -128 <= self.row + other.row <= 127,
        ensures
            r.col == self.col + other.col,
            r.row == self.row + other.row,
    {
        Pos { col: self.col + other.col, row: self.row + other.row }
    }
}

} // verus!
