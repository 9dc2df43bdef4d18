//! The attack tables: for each square, where a knight jumps to and where
//! the pawns of either color go, computed once from the geometry of the
//! board.

use crate::bits::{lemma_empty_mask, lemma_mask_union, lemma_square_bit, mask_has, square_bit};
use crate::board::Color;
use crate::square::{on_board, sq_at, sq_col, sq_row, Case};
use vstd::prelude::*;

verus! {

/// The distance between two coordinates.
pub open spec fn dist(a: int, b: int) -> int {
    if a >= b {
        a - b
    } else {
        b - a
    }
}

/// A knight on `from` jumps to `to`: one step along one axis and two along
/// the other.
pub open spec fn knight_reach(from: int, to: int) -> bool {
    &&& 0 <= from < 64
    &&& 0 <= to < 64
    &&& {
        let dr = dist(sq_row(from), sq_row(to));
        let dc = dist(sq_col(from), sq_col(to));
        (dr == 1 && dc == 2) || (dr == 2 && dc == 1)
    }
}

/// The direction in which a color's pawns advance.
pub open spec fn forward(c: Color) -> int {
    match c {
        Color::White => 1,
        Color::Black => -1,
    }
}

/// The rank on which a color's pawns start.
pub open spec fn pawn_start_row(c: Color) -> int {
    match c {
        Color::White => 1,
        Color::Black => 6,
    }
}

/// A pawn that advances by `dir` ranks per step, and starts on rank
/// `start`, is pushed from `from` to `to`: by one step from any rank but the
/// two at the edges, or by two from its start rank.
pub open spec fn push_reach(start: int, dir: int, from: int, to: int) -> bool {
    &&& 0 <= from < 64
    &&& 0 <= to < 64
    &&& 1 <= sq_row(from) <= 6
    &&& sq_col(to) == sq_col(from)
    &&& (sq_row(to) == sq_row(from) + dir || (sq_row(from) == start && sq_row(to) == sq_row(from)
        + 2 * dir))
}

/// A pawn that advances by `dir` ranks per step captures from `from` on
/// `to`: one rank ahead, one file to either side, from any rank but the
/// two at the edges.
pub open spec fn capture_reach(dir: int, from: int, to: int) -> bool {
    &&& 0 <= from < 64
    &&& 0 <= to < 64
    &&& 1 <= sq_row(from) <= 6
    &&& sq_row(to) == sq_row(from) + dir
    &&& dist(sq_col(to), sq_col(from)) == 1
}

/// A pawn of color `c` is pushed from `from` to `to`.
pub open spec fn pawn_push_reach(c: Color, from: int, to: int) -> bool {
    push_reach(pawn_start_row(c), forward(c), from, to)
}

/// A pawn of color `c` captures from `from` on `to`.
pub open spec fn pawn_capture_reach(c: Color, from: int, to: int) -> bool {
    capture_reach(forward(c), from, to)
}

/// The mask with the squares of `mask` and the square of `case`.
fn with_case(mask: u64, case: Case) -> (r: u64)
    requires
        case.valid(),
    ensures
        forall|sq: int| mask_has(r, sq) == (mask_has(mask, sq) || sq == case.0),
{
    proof {
        assert forall|sq: int|
            mask_has(mask | square_bit(case.0 as int), sq) == (mask_has(mask, sq) || sq
                == case.0) by {
            lemma_mask_union(mask, square_bit(case.0 as int), sq);
            lemma_square_bit(case.0 as int, sq);
        }
    }
    mask | case.board()
}

/// The mask with the squares of `mask` and the square `row` ranks up and
/// `col` files right of `case`, if that one is on the board.
fn with_jump(mask: u64, case: Case, row: i8, col: i8) -> (r: u64)
    requires
        case.valid(),
    ensures
        forall|sq: int|
            mask_has(r, sq) == (mask_has(mask, sq) || (on_board(case.0 / 8 + row, case.0 % 8 + col)
                && sq == sq_at(case.0 / 8 + row, case.0 % 8 + col))),
{
    if let Some(dest) = case.try_offset(row, col) {
        with_case(mask, dest)
    } else {
        mask
    }
}

/// For each square, the squares that a pawn standing there is pushed to.
fn generate_pawn_boards(row_double: u8, factor: i8) -> (a: [u64; 64])
    requires
        factor == 1 || factor == -1,
        0 <= row_double + 2 * factor < 8,
    ensures
        forall|from: int, to: int|
            0 <= from < 64 ==> #[trigger] mask_has(a[from], to) == push_reach(
                row_double as int,
                factor as int,
                from,
                to,
            ),
{
    let mut a = [0u64;64];
    for c in 0..64u8
        invariant
            factor == 1 || factor == -1,
            0 <= row_double + 2 * factor < 8,
            forall|from: int, to: int|
                0 <= from < c ==> #[trigger] mask_has(a[from], to) == push_reach(
                    row_double as int,
                    factor as int,
                    from,
                    to,
                ),
    {
        let case: Case = Case(c);
        let row = case.row();
        let entry = if row == 0 || row == 7 {
            0u64
        } else if row == row_double {
            with_case(with_case(0u64, case.offset(factor, 0)), case.offset(2 * factor, 0))
        } else {
            with_case(0u64, case.offset(factor, 0))
        };
        proof {
            assert forall|to: int|
                mask_has(entry, to) == push_reach(row_double as int, factor as int, c as int, to) by {
                lemma_empty_mask(to);
            }
        }
        a[c as usize] = entry;
    }
    a
}

/// For each square, the squares on which a pawn standing there captures.
fn generate_pawn_boards_capture(factor: i8) -> (a: [u64; 64])
    requires
        factor == 1 || factor == -1,
    ensures
        forall|from: int, to: int|
            0 <= from < 64 ==> #[trigger] mask_has(a[from], to) == capture_reach(
                factor as int,
                from,
                to,
            ),
{
    let mut a = [0u64;64];
    for c in 0..64u8
        invariant
            factor == 1 || factor == -1,
            forall|from: int, to: int|
                0 <= from < c ==> #[trigger] mask_has(a[from], to) == capture_reach(
                    factor as int,
                    from,
                    to,
                ),
    {
        let case: Case = Case(c);
        let row = case.row();
        let mut entry = 0u64;
        if 1 <= row && row <= 6 {
            if case.col() < 7 {
                entry = with_case(entry, case.offset(factor, 1));
            }
            if case.col() > 0 {
                entry = with_case(entry, case.offset(factor, -1));
            }
        }
        proof {
            assert forall|to: int|
                mask_has(entry, to) == capture_reach(factor as int, c as int, to) by {
                lemma_empty_mask(to);
            }
        }
        a[c as usize] = entry;
    }
    a
}

/// For each square, the squares that a knight standing there jumps to.
fn generate_knight_boards() -> (a: [u64; 64])
    ensures
        forall|from: int, to: int|
            0 <= from < 64 ==> #[trigger] mask_has(a[from], to) == knight_reach(from, to),
{
    let mut a = [0u64;64];
    for c in 0..64u8
        invariant
            forall|from: int, to: int|
                0 <= from < c ==> #[trigger] mask_has(a[from], to) == knight_reach(from, to),
    {
        let case: Case = Case(c);
        let mut mov = 0u64;
        mov = with_jump(mov, case, 1, 2);
        mov = with_jump(mov, case, -1, 2);
        mov = with_jump(mov, case, 1, -2);
        mov = with_jump(mov, case, -1, -2);
        mov = with_jump(mov, case, 2, 1);
        mov = with_jump(mov, case, 2, -1);
        mov = with_jump(mov, case, -2, 1);
        mov = with_jump(mov, case, -2, -1);
        proof {
            assert forall|to: int| mask_has(mov, to) == knight_reach(c as int, to) by {
                lemma_empty_mask(to);
            }
        }
        a[c as usize] = mov;
    }
    a
}

/// The attack tables: for each square, the destinations of a knight and of
/// a pawn of either color that stands there. They depend on the squares
/// alone, not on the position.
pub struct AttackTables {
    knight_moves: [u64; 64],
    pawn_moves_white: [u64; 64],
    pawn_moves_black: [u64; 64],
    pawn_moves_white_captures: [u64; 64],
    pawn_moves_black_captures: [u64; 64],
}

impl AttackTables {
    #[verifier::type_invariant]
    spec fn inv(&self) -> bool {
        &&& forall|from: int, to: int|
            0 <= from < 64 ==> #[trigger] mask_has(self.knight_moves[from], to) == knight_reach(
                from,
                to,
            )
        &&& forall|from: int, to: int|
            0 <= from < 64 ==> #[trigger] mask_has(self.pawn_moves_white[from], to)
                == pawn_push_reach(Color::White, from, to)
        &&& forall|from: int, to: int|
            0 <= from < 64 ==> #[trigger] mask_has(self.pawn_moves_black[from], to)
                == pawn_push_reach(Color::Black, from, to)
        &&& forall|from: int, to: int|
            0 <= from < 64 ==> #[trigger] mask_has(self.pawn_moves_white_captures[from], to)
                == pawn_capture_reach(Color::White, from, to)
        &&& forall|from: int, to: int|
            0 <= from < 64 ==> #[trigger] mask_has(self.pawn_moves_black_captures[from], to)
                == pawn_capture_reach(Color::Black, from, to)
    }

    /// The table's mask of the squares that a knight on `from` jumps to.
    pub closed spec fn knight_mask(&self, from: int) -> u64 {
        self.knight_moves[from]
    }

    /// The table's mask of the squares that a pawn of color `c` on `from`
    /// is pushed to.
    pub closed spec fn push_mask(&self, c: Color, from: int) -> u64 {
        match c {
            Color::White => self.pawn_moves_white[from],
            Color::Black => self.pawn_moves_black[from],
        }
    }

    /// The table's mask of the squares on which a pawn of color `c` on
    /// `from` captures.
    pub closed spec fn capture_mask(&self, c: Color, from: int) -> u64 {
        match c {
            Color::White => self.pawn_moves_white_captures[from],
            Color::Black => self.pawn_moves_black_captures[from],
        }
    }

    /// Computes the tables.
    pub fn new() -> (r: Self)
        ensures
            forall|from: int, to: int|
                0 <= from < 64 ==> #[trigger] mask_has(r.knight_mask(from), to) == knight_reach(
                    from,
                    to,
                ),
            forall|c: Color, from: int, to: int|
                0 <= from < 64 ==> #[trigger] mask_has(r.push_mask(c, from), to) == pawn_push_reach(
                    c,
                    from,
                    to,
                ),
            forall|c: Color, from: int, to: int|
                0 <= from < 64 ==> #[trigger] mask_has(r.capture_mask(c, from), to)
                    == pawn_capture_reach(c, from, to),
    {
        let r = AttackTables {
            knight_moves: generate_knight_boards(),
            pawn_moves_white: generate_pawn_boards(1, 1),
            pawn_moves_black: generate_pawn_boards(6, -1),
            pawn_moves_white_captures: generate_pawn_boards_capture(1),
            pawn_moves_black_captures: generate_pawn_boards_capture(-1),
        };
        proof {
            use_type_invariant(&r);
        }
        r
    }

    /// The squares that a knight on `from` jumps to.
    pub fn knight(&self, from: Case) -> (m: u64)
        requires
            from.valid(),
        ensures
            m == self.knight_mask(from.0 as int),
            forall|to: int| mask_has(m, to) == knight_reach(from.0 as int, to),
    {
        proof {
            use_type_invariant(self);
        }
        self.knight_moves[from.0 as usize]
    }

    /// The squares that a pawn of color `c` on `from` is pushed to.
    pub fn pawn_pushes(&self, c: Color, from: Case) -> (m: u64)
        requires
            from.valid(),
        ensures
            m == self.push_mask(c, from.0 as int),
            forall|to: int| mask_has(m, to) == pawn_push_reach(c, from.0 as int, to),
    {
        proof {
            use_type_invariant(self);
        }
        c.map(self.pawn_moves_white[from.0 as usize], self.pawn_moves_black[from.0 as usize])
    }

    /// The squares on which a pawn of color `c` on `from` captures.
    pub fn pawn_captures(&self, c: Color, from: Case) -> (m: u64)
        requires
            from.valid(),
        ensures
            m == self.capture_mask(c, from.0 as int),
            forall|to: int| mask_has(m, to) == pawn_capture_reach(c, from.0 as int, to),
    {
        proof {
            use_type_invariant(self);
        }
        c.map(
            self.pawn_moves_white_captures[from.0 as usize],
            self.pawn_moves_black_captures[from.0 as usize],
        )
    }
}

} // verus!
