//! Position evaluation: the capability, and the evaluator that counts
//! material.

use crate::bits::{lemma_popcount_bound, popcount};
use crate::board::{Board, Color, PartialBoard};
use vstd::prelude::*;

verus! {

/// Scores a position for one color; a positive score favors that color.
pub trait Evaluator {
    /// The score of board `b` for `player`: what `evaluate` returns.
    spec fn score(&self, b: Board, player: Color) -> i32;

    /// Scores board `b` for `player`.
    fn evaluate(&self, b: &Board, player: Color) -> (r: i32)
        ensures
            r == self.score(*b, player),
    ;
}

/// Scores a position by the material of both sides.
pub struct BasicEvaluator;

/// The worth of one side's pieces: 10 for each pawn, 30 for each knight
/// and each bishop, 50 for each rook, 90 for each queen, 900 for each king.
pub open spec fn material(b: PartialBoard) -> nat {
    popcount(b.pawns) * 10 + popcount(b.knights) * 30 + popcount(b.bishops) * 30 + popcount(
        b.rooks,
    ) * 50 + popcount(b.queens) * 90 + popcount(b.king) * 900
}

/// The material of `player` less the material of the other color.
pub open spec fn material_balance(b: Board, player: Color) -> int {
    material(*b.color(player)) as int - material(*b.color(player.rev())) as int
}

/// The material of a side is at most that of 64 pieces of each kind.
pub proof fn lemma_material_bound(b: PartialBoard)
    ensures
        0 <= material(b) <= 64 * 1110,
{
    lemma_popcount_bound(b.pawns);
    lemma_popcount_bound(b.knights);
    lemma_popcount_bound(b.bishops);
    lemma_popcount_bound(b.rooks);
    lemma_popcount_bound(b.queens);
    lemma_popcount_bound(b.king);
}

/// What one color gains in material balance the other loses.
pub proof fn lemma_material_zero_sum(b: Board, player: Color)
    ensures
        material_balance(b, player.rev()) == -material_balance(b, player),
{
}

/// The worth of one side's pieces.
fn eval(b: &PartialBoard) -> (r: u32)
    ensures
        r == material(*b),
{
    proof {
        lemma_popcount_bound(b.pawns);
        lemma_popcount_bound(b.knights);
        lemma_popcount_bound(b.bishops);
        lemma_popcount_bound(b.rooks);
        lemma_popcount_bound(b.queens);
        lemma_popcount_bound(b.king);
    }
    b.pawns.count_ones() * 10 + b.knights.count_ones() * 30 + b.bishops.count_ones() * 30
        + b.rooks.count_ones() * 50 + b.queens.count_ones() * 90 + b.king.count_ones() * 900
}

impl Evaluator for BasicEvaluator {
    /// The material balance, which fits the score's type.
    open spec fn score(&self, b: Board, player: Color) -> i32 {
        material_balance(b, player) as i32
    }

    fn evaluate(&self, b: &Board, player: Color) -> (r: i32)
        ensures
            r == material_balance(*b, player),
    {
        let this = b.color(player);
        let other = b.color(player.rev());
        proof {
            lemma_material_bound(*this);
            lemma_material_bound(*other);
        }
        return eval(this) as i32 - eval(other) as i32;
    }
}

} // verus!
