//! The searching player: a fixed-depth, full-width minimax over the
//! generated moves, scored by an evaluator.

use crate::board::{Board, Color};
use crate::evaluate::{BasicEvaluator, Evaluator};
use crate::attack::AttackTables;
use crate::move_generator::{generate_moves, lemma_generated_moves_apply, spec_generate_moves};
use crate::square::GenMove;
use crate::player::Player;
use rand::rngs::SmallRng;
use rand::SeedableRng;
use vstd::prelude::*;

verus! {

/// `rand::rngs::SmallRng`, the small generator of the rand crate. A
/// player carries one; nothing looks into it.
#[verifier::external_type_specification]
#[verifier::external_body]
pub struct ExSmallRng(SmallRng);

/// `SmallRng::from_seed` of the rand crate, which every `SeedableRng` has:
/// a generator whose state is made from the seed, by a rule that the rand
/// crate picks for the machine. Nothing is claimed of the generator.
#[verifier::external_body]
fn seeded_rng(seed: [u8; 16]) -> SmallRng {
    SmallRng::from_seed(seed)
}

/// How many plies the search looks ahead after the move that it tries.
pub const SEARCH_DEPTH: usize = 3;

/// The value of a node that maximizes and has no move.
pub const NO_MOVE_MAX: i32 = -9999;

/// The value of a node that minimizes and has no move.
pub const NO_MOVE_MIN: i32 = 9999;

/// The value of board `b` to a search of `depth` plies, in which color `c`
/// is to move.
///
/// At depth 0 it is the evaluator's score of `b` for `c`. Above, each move
/// generated for `c` is played, and the board it gives is valued one ply
/// less deep, for the other color and with `maximizing` flipped; the
/// value is the largest of these where `maximizing` holds, else the
/// smallest. A node without moves is worth -9999 where it maximizes and
/// 9999 where it minimizes.
///
/// Color and `maximizing` flip together, so below a node that minimizes for
/// color `c` the nodes that maximize are those where the other color moves.
pub open spec fn minimax<E: Evaluator>(
    eval: E,
    depth: nat,
    c: Color,
    b: Board,
    maximizing: bool,
) -> int
    decreases depth, spec_generate_moves(b, c).len() + 1,
{
    if depth == 0 {
        eval.score(b, c) as int
    } else {
        minimax_over(eval, depth, c, b, maximizing, spec_generate_moves(b, c).len() as int)
    }
}

/// The value of board `b` by the first `n` of the moves generated for `c`.
pub open spec fn minimax_over<E: Evaluator>(
    eval: E,
    depth: nat,
    c: Color,
    b: Board,
    maximizing: bool,
    n: int,
) -> int
    decreases depth, n,
{
    if depth == 0 || n <= 0 || n > spec_generate_moves(b, c).len() {
        if maximizing {
            NO_MOVE_MAX as int
        } else {
            NO_MOVE_MIN as int
        }
    } else {
        let best = minimax_over(eval, depth, c, b, maximizing, n - 1);
        let child = minimax(
            eval,
            (depth - 1) as nat,
            c.rev(),
            b.spec_apply(spec_generate_moves(b, c)[n - 1]).unwrap(),
            !maximizing,
        );
        if maximizing {
            if best > child {
                best
            } else {
                child
            }
        } else {
            if best < child {
                best
            } else {
                child
            }
        }
    }
}

/// The value of the board behind the `i`-th move generated for `c` on
/// `b`, as a search of `depth` plies on `b` sees it.
pub open spec fn child_value<E: Evaluator>(
    eval: E,
    depth: nat,
    c: Color,
    b: Board,
    maximizing: bool,
    i: int,
) -> int {
    minimax(
        eval,
        (depth - 1) as nat,
        c.rev(),
        b.spec_apply(spec_generate_moves(b, c)[i]).unwrap(),
        !maximizing,
    )
}

/// The value by the first `n` moves is the extreme of their values and
/// the value of a node without moves: where the node maximizes no smaller
/// than any of them, where it minimizes no larger, and equal to one of them.
pub proof fn lemma_minimax_over_extreme<E: Evaluator>(
    eval: E,
    depth: nat,
    c: Color,
    b: Board,
    maximizing: bool,
    n: int,
)
    requires
        depth > 0,
        0 <= n <= spec_generate_moves(b, c).len(),
    ensures
        maximizing ==> minimax_over(eval, depth, c, b, maximizing, n) >= NO_MOVE_MAX,
        !maximizing ==> minimax_over(eval, depth, c, b, maximizing, n) <= NO_MOVE_MIN,
        forall|i: int|
            0 <= i < n ==> (if maximizing {
                minimax_over(eval, depth, c, b, maximizing, n) >= #[trigger] child_value(
                    eval,
                    depth,
                    c,
                    b,
                    maximizing,
                    i,
                )
            } else {
                minimax_over(eval, depth, c, b, maximizing, n) <= child_value(
                    eval,
                    depth,
                    c,
                    b,
                    maximizing,
                    i,
                )
            }),
        minimax_over(eval, depth, c, b, maximizing, n) == (if maximizing {
            NO_MOVE_MAX as int
        } else {
            NO_MOVE_MIN as int
        }) || exists|i: int|
            0 <= i < n && minimax_over(eval, depth, c, b, maximizing, n) == #[trigger] child_value(
                eval,
                depth,
                c,
                b,
                maximizing,
                i,
            ),
    decreases n,
{
    if n > 0 {
        lemma_minimax_over_extreme(eval, depth, c, b, maximizing, n - 1);
        let before = minimax_over(eval, depth, c, b, maximizing, n - 1);
        let now = minimax_over(eval, depth, c, b, maximizing, n);
        let last = child_value(eval, depth, c, b, maximizing, n - 1);
        if now != before {
            assert(now == last);
        } else if before != (if maximizing {
            NO_MOVE_MAX as int
        } else {
            NO_MOVE_MIN as int
        }) {
            let i = choose|i: int|
                0 <= i < n - 1 && before == #[trigger] child_value(eval, depth, c, b, maximizing, i);
            assert(0 <= i < n && now == child_value(eval, depth, c, b, maximizing, i));
        }
    }
}

/// The score of the `i`-th move generated for `c` on `b`: the value of the
/// board it gives, searched `SEARCH_DEPTH` plies deep for the other color,
/// minimizing.
pub open spec fn move_score<E: Evaluator>(eval: E, c: Color, b: Board, i: int) -> int {
    minimax(
        eval,
        SEARCH_DEPTH as nat,
        c.rev(),
        b.spec_apply(spec_generate_moves(b, c)[i]).unwrap(),
        false,
    )
}

/// Among the first `n` moves generated for `c` on `b`, the index of the
/// one with the highest score, and of the last such where several share it:
/// the move that a stable sort by ascending score leaves at the end.
pub open spec fn best_index<E: Evaluator>(eval: E, c: Color, b: Board, n: int) -> int
    decreases n,
{
    if n <= 1 {
        0
    } else {
        let k = best_index(eval, c, b, n - 1);
        if move_score(eval, c, b, n - 1) >= move_score(eval, c, b, k) {
            n - 1
        } else {
            k
        }
    }
}

/// The move that the search chooses for `c` on `b`; none where no move
/// is generated.
pub open spec fn best_move_spec<E: Evaluator>(eval: E, c: Color, b: Board) -> Option<GenMove> {
    let moves = spec_generate_moves(b, c);
    if moves.len() == 0 {
        None
    } else {
        Some(moves[best_index(eval, c, b, moves.len() as int)])
    }
}

/// `best_index` is the index of a highest score, and every later move
/// scores lower.
pub proof fn lemma_best_index<E: Evaluator>(eval: E, c: Color, b: Board, n: int)
    requires
        n >= 1,
    ensures
        0 <= best_index(eval, c, b, n) < n,
        forall|j: int|
            0 <= j < n ==> #[trigger] move_score(eval, c, b, j) <= move_score(
                eval,
                c,
                b,
                best_index(eval, c, b, n),
            ),
        forall|j: int|
            best_index(eval, c, b, n) < j < n ==> #[trigger] move_score(eval, c, b, j) < move_score(
                eval,
                c,
                b,
                best_index(eval, c, b, n),
            ),
    decreases n,
{
    if n > 1 {
        lemma_best_index(eval, c, b, n - 1);
    }
}

/// A player that searches.
pub struct AiPlayer<E: Evaluator> {
    rng: SmallRng,
    eval: E,
    tables: AttackTables,
}

impl AiPlayer<BasicEvaluator> {
    /// A player that scores positions by material.
    pub fn new(seed: [u8; 16]) -> (r: Self)
        ensures
            r.evaluator() == BasicEvaluator,
    {
        AiPlayer::with_generator(seeded_rng(seed), BasicEvaluator)
    }
}

impl<E: Evaluator> AiPlayer<E> {
    /// The evaluator that this player scores positions with.
    pub closed spec fn evaluator(&self) -> E {
        self.eval
    }

    /// The generator that this player carries. The search does not draw
    /// from it.
    pub closed spec fn generator(&self) -> SmallRng {
        self.rng
    }

    /// A player that carries the generator `rng` and scores positions with
    /// `eval`.
    pub fn with_generator(rng: SmallRng, eval: E) -> (r: Self)
        ensures
            r.generator() == rng,
            r.evaluator() == eval,
    {
        AiPlayer { rng, eval, tables: AttackTables::new() }
    }

    /// A player that scores positions with `eval`.
    pub fn with_evaluator(seed: [u8; 16], eval: E) -> (r: Self)
        ensures
            r.evaluator() == eval,
    {
        AiPlayer::with_generator(seeded_rng(seed), eval)
    }

    /// The value of board `b` to a search of `depth` plies in which `c`
    /// is to move.
    pub fn search(&self, depth: usize, c: Color, b: &Board, maximizing: bool) -> (r: i32)
        ensures
            r == minimax(self.evaluator(), depth as nat, c, *b, maximizing),
        decreases depth,
    {
        if depth == 0 {
            return self.eval.evaluate(b, c);
        }
        let mut best = if maximizing {
            NO_MOVE_MAX
        } else {
            NO_MOVE_MIN
        };
        let moves = generate_moves(&self.tables, b, c);
        let mut i: usize = 0;
        while i < moves.len()
            invariant
                depth > 0,
                i <= moves.len(),
                moves@ == spec_generate_moves(*b, c),
                best == minimax_over(self.evaluator(), depth as nat, c, *b, maximizing, i as int),
            decreases moves.len() - i,
        {
            proof {
                lemma_generated_moves_apply(*b, c, i as int);
            }
            let m = moves[i];
            let next = b.apply(&m).unwrap();
            let value = self.search(depth - 1, c.rev(), &next, !maximizing);
            best = if maximizing {
                if best > value {
                    best
                } else {
                    value
                }
            } else {
                if best < value {
                    best
                } else {
                    value
                }
            };
            i += 1;
        }
        best
    }

    /// The move that the search chooses for `c` on `b`: of the moves
    /// generated, the one that scores highest, and the last generated of
    /// these where several do; `None` where no move is generated.
    pub fn best_move(&self, c: Color, b: &Board) -> (r: Option<GenMove>)
        ensures
            r == best_move_spec(self.evaluator(), c, *b),
            r is Some <==> spec_generate_moves(*b, c).len() > 0,
    {
        let moves = generate_moves(&self.tables, b, c);
        if moves.len() == 0 {
            return None;
        }
        let mut chosen: usize = 0;
        let mut chosen_score: i32 = 0;
        let mut i: usize = 0;
        while i < moves.len()
            invariant
                i <= moves.len(),
                moves.len() > 0,
                moves@ == spec_generate_moves(*b, c),
                i > 0 ==> chosen == best_index(self.evaluator(), c, *b, i as int),
                i > 0 ==> chosen < i,
                i > 0 ==> chosen_score == move_score(self.evaluator(), c, *b, chosen as int),
                i == 0 ==> chosen == 0,
            decreases moves.len() - i,
        {
            proof {
                lemma_generated_moves_apply(*b, c, i as int);
            }
            let m = moves[i];
            let next = b.apply(&m).unwrap();
            let score = self.search(SEARCH_DEPTH, c.rev(), &next, false);
            if i == 0 || score >= chosen_score {
                chosen = i;
                chosen_score = score;
            }
            i += 1;
        }
        Some(moves[chosen])
    }
}

impl<E: Evaluator> Player for AiPlayer<E> {
    /// The search answers where at least one move is generated.
    open spec fn has_move(&self, c: Color, b: Board) -> bool {
        spec_generate_moves(b, c).len() > 0
    }

    /// The move that the search chooses. It depends on the evaluator, the
    /// color and the board alone, and leaves the player as it was.
    fn get_move(&mut self, c: Color, b: &Board) -> (m: GenMove)
        ensures
            Some(m) == best_move_spec(old(self).evaluator(), c, *b),
            *final(self) == *old(self),
    {
        self.best_move(c, b).unwrap()
    }
}

} // verus!
