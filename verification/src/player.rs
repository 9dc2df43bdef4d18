//! Players: whoever can be asked for a move.

use crate::bits::mask_has;
use crate::board::{Board, Color};
use crate::square::{Case, Flags, GenMove};
use vstd::prelude::*;

verus! {

/// Someone who moves when asked.
pub trait Player {
    /// This player can answer for color `c` on board `b`.
    spec fn has_move(&self, c: Color, b: Board) -> bool;

    /// The move that this player makes for color `c` on board `b`.
    fn get_move(&mut self, c: Color, b: &Board) -> (m: GenMove)
        requires
            old(self).has_move(c, *b),
    ;
}

/// A player that follows a fixed script: each color shuttles between two
/// squares, by whether a piece stands on one marker square.
pub struct SeqPlayer {}

/// The square on file `x` of rank `y`.
pub open spec fn square_xy(x: int, y: int) -> int {
    y * 8 + x
}

/// The move of the script for color `c` on board `b`.
///
/// White: from square 18 to square 8 if a piece stands on file 2 of rank
/// 2, else from 8 to 18. Black: from square 15 to square 21 if a piece
/// stands on file 1 of rank 7, else from 21 to 15.
pub open spec fn scripted_move(c: Color, b: Board) -> GenMove {
    let (from, to) = match c {
        Color::White => if mask_has(b.all(), square_xy(2, 2)) {
            (18u8, 8u8)
        } else {
            (8u8, 18u8)
        },
        Color::Black => if mask_has(b.all(), square_xy(1, 7)) {
            (15u8, 21u8)
        } else {
            (21u8, 15u8)
        },
    };
    GenMove { from: Case(from), to: Case(to), flags: Flags::none(), promotion: None }
}

impl Player for SeqPlayer {
    open spec fn has_move(&self, c: Color, b: Board) -> bool {
        true
    }

    fn get_move(&mut self, c: Color, b: &Board) -> (m: GenMove)
        ensures
            m == scripted_move(c, *b),
    {
        match c {
            Color::White => {
                if b.any_at(2, 2) {
                    GenMove::new(Case::new(2, 2), Case::new(1, 0), Flags::none())
                } else {
                    GenMove::new(Case::new(1, 0), Case::new(2, 2), Flags::none())
                }
            },
            Color::Black => {
                if b.any_at(1, 7) {
                    GenMove::new(Case::new(1, 7), Case::new(2, 5), Flags::none())
                } else {
                    GenMove::new(Case::new(2, 5), Case::new(1, 7), Flags::none())
                }
            },
        }
    }
}

} // verus!
