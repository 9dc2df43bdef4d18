//! The move validator: judges one proposed move by the rules of the piece
//! that makes it, for all six kinds of pieces. It does not look at whether
//! the mover's king is left attacked.

use crate::bits::{lemma_mask_union, mask_has};
use crate::board::{Board, Color, Piece};
use crate::attack::{dist, pawn_start_row};
use crate::move_generator::{
    all_moves, in_mask, knight_dest, knight_moves_from, knight_step, lemma_scan_all,
    pawn_capture_dest, pawn_capture_step, pawn_moves_from, pawn_push_dest, pawn_push_step, ray,
    ray_room, rook_moves_from, spec_generate_moves, spec_move,
};
use crate::square::{on_board, sq_at, sq_col, sq_row, Case, Flags, GenMove};
use vstd::prelude::*;

verus! {

/// The judge of single moves.
pub struct Validator {}

/// What a valid move does.
#[derive(Debug, Clone, Copy, PartialEq, Eq)]
pub enum MoveType {
    Quiet,
    Capture,
}

/// A move that is not valid is none; a valid one is a capture or quiet.
pub open spec fn classify(valid: bool, capture: bool) -> Option<MoveType> {
    if !valid {
        None
    } else if capture {
        Some(MoveType::Capture)
    } else {
        Some(MoveType::Quiet)
    }
}

impl MoveType {
    /// A quiet move where `b` holds, none otherwise.
    pub fn map_quiet(b: bool) -> (r: Option<MoveType>)
        ensures
            r == classify(b, false),
    {
        if b {
            Some(MoveType::Quiet)
        } else {
            None
        }
    }

    /// A capture where `b` holds, none otherwise.
    pub fn map_capture(b: bool) -> (r: Option<MoveType>)
        ensures
            r == classify(b, true),
    {
        if b {
            Some(MoveType::Capture)
        } else {
            None
        }
    }

    /// None for a move that is not valid; else a capture or a quiet move.
    pub fn map(valid: bool, capture: bool) -> (r: Option<MoveType>)
        ensures
            r == classify(valid, capture),
    {
        if !valid {
            None
        } else if capture {
            Some(MoveType::Capture)
        } else {
            Some(MoveType::Quiet)
        }
    }
}

/// The sign of `to - from`.
pub open spec fn sign(from: int, to: int) -> int {
    if from > to {
        -1
    } else if from < to {
        1
    } else {
        0
    }
}

/// `steps` steps in the direction `dir`, which is a sign.
pub open spec fn stride(steps: int, dir: int) -> int {
    if dir > 0 {
        steps
    } else if dir < 0 {
        -steps
    } else {
        0
    }
}

/// The square `i` steps from `from` towards `to`, each step moving by the
/// sign of the difference along either axis.
pub open spec fn path_square(from: int, to: int, i: int) -> int {
    sq_at(
        sq_row(from) + stride(i, sign(sq_row(from), sq_row(to))),
        sq_col(from) + stride(i, sign(sq_col(from), sq_col(to))),
    )
}

/// The number of steps from `from` to `to`: the larger of the distances
/// along the two axes.
pub open spec fn path_len(from: int, to: int) -> int {
    let dx = dist(sq_col(to), sq_col(from));
    let dy = dist(sq_row(to), sq_row(from));
    if dx > dy {
        dx
    } else {
        dy
    }
}

/// Every square strictly between `from` and `to` is empty.
pub open spec fn path_clear(b: Board, from: int, to: int) -> bool {
    forall|i: int| 1 <= i < path_len(from, to) ==> !mask_has(b.all(), #[trigger] path_square(from, to, i))
}

/// The verdict on a sliding move of a piece of color `c` whose geometry is
/// right: valid where the path is clear and no piece of color `c` stands on
/// the destination; a capture where a piece of the other color stands there.
pub open spec fn slide(b: Board, c: Color, from: int, to: int) -> Option<MoveType> {
    if !path_clear(b, from, to) {
        None
    } else {
        classify(!mask_has(b.color(c).all(), to), mask_has(b.color(c.rev()).all(), to))
    }
}

/// The move goes towards the other side's home ranks.
pub open spec fn faces_forward(c: Color, from: int, to: int) -> bool {
    match c {
        Color::White => sq_row(to) > sq_row(from),
        Color::Black => sq_row(to) < sq_row(from),
    }
}

/// The verdict on move `m` on board `b`, with `dx` and `dy` the distances
/// between its squares along files and ranks.
///
/// - No piece on the origin: not valid.
/// - Pawn: the move must face forward. Straight (`dx == 0`): quiet, by one
///   rank, or by two from the pawn's start rank. One file aside: a capture,
///   by one rank onto a piece of the other color.
/// - Knight: `(dx, dy)` is `(1, 2)` or `(2, 1)`, and no piece of its own
///   color stands on the destination.
/// - Bishop: `dx == dy`; rook: `dx == 0` or `dy == 0`; queen: either; each
///   with a clear path and no piece of its own color on the destination.
/// - King: `dx + dy == 1`, and no piece of its own color on the
///   destination.
///
/// A valid move onto a piece of the other color is a capture, any other
/// valid move is quiet.
pub open spec fn spec_check_move(b: Board, m: GenMove) -> Option<MoveType> {
    let from = m.from.0 as int;
    let to = m.to.0 as int;
    let dx = dist(sq_col(to), sq_col(from));
    let dy = dist(sq_row(to), sq_row(from));
    match b.piece_at(from) {
        None => None,
        Some((p, c)) => {
            let own = mask_has(b.color(c).all(), to);
            let foe = mask_has(b.color(c.rev()).all(), to);
            match p {
                Piece::Pawn => {
                    if !faces_forward(c, from, to) {
                        None
                    } else if dx == 0 {
                        classify(dy == 1 || (dy == 2 && sq_row(from) == pawn_start_row(c)), false)
                    } else if dx == 1 {
                        classify(dy == 1 && foe, true)
                    } else {
                        None
                    }
                },
                Piece::Knight => classify(((dx == 2 && dy == 1) || (dx == 1 && dy == 2)) && !own, foe),
                Piece::Bishop => {
                    if dx != dy {
                        None
                    } else {
                        slide(b, c, from, to)
                    }
                },
                Piece::Rook => {
                    if dx != 0 && dy != 0 {
                        None
                    } else {
                        slide(b, c, from, to)
                    }
                },
                Piece::Queen => {
                    if dx != dy && dx != 0 && dy != 0 {
                        None
                    } else {
                        slide(b, c, from, to)
                    }
                },
                Piece::King => classify(dx + dy == 1 && !own, foe),
            }
        },
    }
}

/// A square is occupied exactly when a piece of one of the colors stands
/// on it.
pub proof fn lemma_occupied(b: Board, c: Color, sq: int)
    ensures
        mask_has(b.all(), sq) == (mask_has(b.color(c).all(), sq) || mask_has(
            b.color(c.rev()).all(),
            sq,
        )),
{
    lemma_mask_union(b.white.all(), b.black.all(), sq);
}

impl Validator {
    /// The distance between two coordinates.
    fn delta_abs(a: u8, b: u8) -> (r: u8)
        ensures
            r == dist(a as int, b as int),
    {
        if a > b {
            a - b
        } else {
            b - a
        }
    }

    /// The sign of `b - a`.
    fn direction(a: u8, b: u8) -> (r: i16)
        ensures
            r == sign(a as int, b as int),
    {
        if a > b {
            -1
        } else if a < b {
            1
        } else {
            0
        }
    }

    /// The coordinate `i` steps from `base` in direction `dir`.
    fn along(base: u8, dir: i16, i: i16) -> (r: u8)
        requires
            -1 <= dir <= 1,
            0 <= i < 8,
            0 <= base + stride(i as int, dir as int) < 8,
        ensures
            r == base + stride(i as int, dir as int),
    {
        assert(dir * i == stride(i as int, dir as int)) by (nonlinear_arith)
            requires
                -1 <= dir <= 1,
        ;
        (base as i16 + dir * i) as u8
    }

    /// The verdict on a sliding move whose geometry is right.
    fn validate_sliding(m: &GenMove, c: Color, b: &Board, dx: u8, dy: u8) -> (r: Option<MoveType>)
        requires
            m.valid(),
            dx == dist(sq_col(m.to.0 as int), sq_col(m.from.0 as int)),
            dy == dist(sq_row(m.to.0 as int), sq_row(m.from.0 as int)),
            dx == dy || dx == 0 || dy == 0,
        ensures
            r == slide(*b, c, m.from.0 as int, m.to.0 as int),
    {
        let ghost from = m.from.0 as int;
        let ghost to = m.to.0 as int;
        let (sx, sy) = (
            Self::direction(m.from.col(), m.to.col()),
            Self::direction(m.from.row(), m.to.row()),
        );
        let d = if dx > dy {
            dx
        } else {
            dy
        };
        let mut i: i16 = 1;
        while i < d as i16
            invariant
                1 <= i,
                m.valid(),
                from == m.from.0,
                to == m.to.0,
                d == path_len(from, to),
                dx == dist(sq_col(to), sq_col(from)),
                dy == dist(sq_row(to), sq_row(from)),
                dx == dy || dx == 0 || dy == 0,
                d == dx || d == dy,
                sx == sign(sq_col(from), sq_col(to)),
                sy == sign(sq_row(from), sq_row(to)),
                forall|k: int| 1 <= k < i ==> !mask_has(b.all(), #[trigger] path_square(from, to, k)),
            decreases d - i,
        {
            let dpos = Case::new(
                Self::along(m.from.row(), sy, i),
                Self::along(m.from.col(), sx, i),
            );
            assert(dpos.0 == path_square(from, to, i as int));
            if !b.empty_at(&dpos) {
                return None;
            }
            i += 1;
        }
        proof {
            lemma_occupied(*b, c, to);
        }
        MoveType::map(b.color_or_empty_at(c.rev(), &m.to), !b.empty_at(&m.to))
    }

    /// Judges move `m` on board `b`: `None` for a move that the rules of
    /// its piece do not allow, else what the move does.
    pub fn check_move(b: &Board, m: &GenMove) -> (r: Option<MoveType>)
        requires
            m.valid(),
        ensures
            r == spec_check_move(*b, *m),
    {
        let (dx, dy) = (
            Self::delta_abs(m.to.col(), m.from.col()),
            Self::delta_abs(m.to.row(), m.from.row()),
        );
        if let Some((p, c)) = b.at_pos(&m.from) {
            proof {
                lemma_occupied(*b, c, m.to.0 as int);
            }
            match p {
                Piece::Pawn => {
                    let (fwd, from_start_row) = match c {
                        Color::White => (m.to.row() > m.from.row(), m.from.row() == 1),
                        Color::Black => (m.to.row() < m.from.row(), m.from.row() == 6),
                    };
                    if !fwd {
                        None
                    } else if dx == 0 {
                        MoveType::map_quiet(dy == 1 || (dy == 2 && from_start_row))
                    } else if dx == 1 {
                        MoveType::map_capture(dy == 1 && b.color_at(c.rev(), &m.to))
                    } else {
                        None
                    }
                },
                Piece::Knight => {
                    let valid_dist = (dx == 2 && dy == 1) || (dx == 1 && dy == 2);
                    MoveType::map(
                        valid_dist && b.color_or_empty_at(c.rev(), &m.to),
                        !b.empty_at(&m.to),
                    )
                },
                Piece::Bishop => {
                    if dx != dy {
                        None
                    } else {
                        Self::validate_sliding(m, c, b, dx, dy)
                    }
                },
                Piece::Rook => {
                    if dx != 0 && dy != 0 {
                        None
                    } else {
                        Self::validate_sliding(m, c, b, dx, dy)
                    }
                },
                Piece::Queen => {
                    if dx != dy && dx != 0 && dy != 0 {
                        None
                    } else {
                        Self::validate_sliding(m, c, b, dx, dy)
                    }
                },
                Piece::King => {
                    MoveType::map(
                        dx + dy == 1 && b.color_or_empty_at(c.rev(), &m.to),
                        !b.empty_at(&m.to),
                    )
                },
            }
        } else {
            None
        }
    }
}

/// The validator accepts the move, as a capture where the move is flagged
/// as one and as quiet where it is not.
pub open spec fn accepts(b: Board) -> spec_fn(GenMove) -> bool {
    |m: GenMove|
        spec_check_move(b, m) == Some(
            if m.flags == Flags::capture() {
                MoveType::Capture
            } else {
                MoveType::Quiet
            },
        )
}

/// The four directions in which a rook moves.
pub open spec fn rook_direction(row: int, col: int) -> bool {
    (row == 0 && (col == 1 || col == -1)) || (col == 0 && (row == 1 || row == -1))
}

/// The square `k` steps from `from` in the direction (`row`, `col`).
pub open spec fn ray_square(from: int, k: int, row: int, col: int) -> int {
    sq_at(sq_row(from) + stride(k, row), sq_col(from) + stride(k, col))
}

/// A walk from `from` in a rook's direction has come `k` steps far over
/// free squares, and stands on the board.
pub open spec fn ray_walked(b: Board, from: int, k: int, row: int, col: int) -> bool {
    &&& 0 <= from < 64
    &&& rook_direction(row, col)
    &&& 0 <= k
    &&& on_board(sq_row(from) + stride(k, row), sq_col(from) + stride(k, col))
    &&& forall|j: int| 1 <= j <= k ==> !mask_has(b.all(), #[trigger] ray_square(from, j, row, col))
}

/// The squares that a walk in a rook's direction passes are the squares
/// of the path from its origin to where it stands.
proof fn lemma_ray_path(from: int, k: int, row: int, col: int)
    requires
        0 <= from < 64,
        rook_direction(row, col),
        1 <= k,
        on_board(sq_row(from) + stride(k, row), sq_col(from) + stride(k, col)),
    ensures
        path_len(from, ray_square(from, k, row, col)) == k,
        dist(sq_col(ray_square(from, k, row, col)), sq_col(from)) == 0 || dist(
            sq_row(ray_square(from, k, row, col)),
            sq_row(from),
        ) == 0,
        forall|i: int|
            1 <= i <= k ==> #[trigger] path_square(from, ray_square(from, k, row, col), i)
                == ray_square(from, i, row, col),
{
}

/// One more step of a walk in a rook's direction, onto a square that
/// holds no piece of the rook's color: the validator accepts the rook's
/// move to that square, and where the square is free the walk has come one
/// step further.
proof fn lemma_ray_step(b: Board, player: Color, from: int, k: int, row: int, col: int)
    requires
        b.wf(),
        b.piece_at(from) == Some((Piece::Rook, player)),
        ray_walked(b, from, k, row, col),
        on_board(sq_row(from) + stride(k + 1, row), sq_col(from) + stride(k + 1, col)),
        !mask_has(b.color(player).all(), ray_square(from, k + 1, row, col)),
    ensures
        accepts(b)(
            spec_move(
                from,
                ray_square(from, k + 1, row, col),
                mask_has(b.color(player.rev()).all(), ray_square(from, k + 1, row, col)),
            ),
        ),
        !mask_has(b.color(player.rev()).all(), ray_square(from, k + 1, row, col)) ==> ray_walked(
            b,
            from,
            k + 1,
            row,
            col,
        ),
{
    let next = ray_square(from, k + 1, row, col);
    lemma_ray_path(from, k + 1, row, col);
    assert forall|i: int| 1 <= i < path_len(from, next) implies !mask_has(
        b.all(),
        #[trigger] path_square(from, next, i),
    ) by {
        assert(path_square(from, next, i) == ray_square(from, i, row, col));
    }
    assert(path_clear(b, from, next));
    lemma_occupied(b, player, next);
}

/// The validator accepts the moves of a rook on `from` along the rest of
/// a ray, from the square on which a walk of `k` steps stands.
proof fn lemma_ray_accepted(b: Board, player: Color, from: int, k: int, row: int, col: int)
    requires
        b.wf(),
        b.piece_at(from) == Some((Piece::Rook, player)),
        ray_walked(b, from, k, row, col),
    ensures
        forall|i: int|
            0 <= i < ray(
                *b.color(player),
                *b.color(player.rev()),
                from,
                ray_square(from, k, row, col),
                row,
                col,
            ).len() ==> accepts(b)(
                #[trigger] ray(
                    *b.color(player),
                    *b.color(player.rev()),
                    from,
                    ray_square(from, k, row, col),
                    row,
                    col,
                )[i],
            ),
    decreases ray_room(ray_square(from, k, row, col), row, col),
{
    let this = *b.color(player);
    let other = *b.color(player.rev());
    let cur = ray_square(from, k, row, col);
    let next = ray_square(from, k + 1, row, col);
    let whole = ray(this, other, from, cur, row, col);
    assert(next == sq_at(sq_row(cur) + row, sq_col(cur) + col));
    if on_board(sq_row(cur) + row, sq_col(cur) + col) && !mask_has(this.all(), next) {
        lemma_ray_step(b, player, from, k, row, col);
        if !mask_has(other.all(), next) {
            lemma_ray_accepted(b, player, from, k + 1, row, col);
            let rest = ray(this, other, from, next, row, col);
            assert forall|i: int| 0 <= i < whole.len() implies accepts(b)(#[trigger] whole[i]) by {
                if i > 0 {
                    assert(whole[i] == rest[i - 1]);
                }
            }
        }
    }
}

/// The validator accepts the moves of a rook.
proof fn lemma_rook_moves_accepted(b: Board, player: Color, from: int)
    requires
        b.wf(),
        0 <= from < 64,
        b.piece_at(from) == Some((Piece::Rook, player)),
    ensures
        forall|i: int|
            0 <= i < rook_moves_from(*b.color(player), *b.color(player.rev()))(from).len()
                ==> accepts(b)(
                #[trigger] rook_moves_from(*b.color(player), *b.color(player.rev()))(from)[i],
            ),
{
    let this = *b.color(player);
    let other = *b.color(player.rev());
    assert(ray_square(from, 0, 1, 0) == from);
    assert(ray_square(from, 0, -1, 0) == from);
    assert(ray_square(from, 0, 0, 1) == from);
    assert(ray_square(from, 0, 0, -1) == from);
    lemma_ray_accepted(b, player, from, 0, 1, 0);
    lemma_ray_accepted(b, player, from, 0, -1, 0);
    lemma_ray_accepted(b, player, from, 0, 0, 1);
    lemma_ray_accepted(b, player, from, 0, 0, -1);
    let up = ray(this, other, from, from, 1, 0);
    let down = ray(this, other, from, from, -1, 0);
    let right = ray(this, other, from, from, 0, 1);
    let left = ray(this, other, from, from, 0, -1);
    let whole = rook_moves_from(this, other)(from);
    assert(whole == up + down + right + left);
    assert forall|i: int| 0 <= i < whole.len() implies accepts(b)(#[trigger] whole[i]) by {
        if i < up.len() {
            assert(whole[i] == up[i]);
        } else if i < up.len() + down.len() {
            assert(whole[i] == down[i - up.len()]);
        } else if i < up.len() + down.len() + right.len() {
            assert(whole[i] == right[i - up.len() - down.len()]);
        } else {
            assert(whole[i] == left[i - up.len() - down.len() - right.len()]);
        }
    }
}

/// The generator and the validator agree: on a board where no square
/// holds two pieces, the validator accepts every generated move, as a
/// capture where the move is flagged as one and as quiet where it is not.
pub proof fn lemma_generated_moves_accepted(b: Board, player: Color)
    requires
        b.wf(),
    ensures
        forall|i: int|
            0 <= i < spec_generate_moves(b, player).len() ==> accepts(b)(
                #[trigger] spec_generate_moves(b, player)[i],
            ),
{
    let this = *b.color(player);
    let other = *b.color(player.rev());
    let holds = accepts(b);
    assert forall|sq: int, i: int|
        0 <= sq < 64 && in_mask(this.pawns)(sq) && 0 <= i < pawn_moves_from(player, this, other)(
            sq,
        ).len() implies holds(#[trigger] pawn_moves_from(player, this, other)(sq)[i]) by {
        assert(mask_has(b.spec_get_pc_board(Piece::Pawn, player), sq));
        lemma_scan_all(pawn_capture_dest(player, sq), pawn_capture_step(other, sq), 64, holds);
        lemma_scan_all(pawn_push_dest(player, sq), pawn_push_step(this, other, sq), 64, holds);
    }
    lemma_scan_all(in_mask(this.pawns), pawn_moves_from(player, this, other), 64, holds);
    assert forall|sq: int, i: int|
        0 <= sq < 64 && in_mask(this.knights)(sq) && 0 <= i < knight_moves_from(this, other)(
            sq,
        ).len() implies holds(#[trigger] knight_moves_from(this, other)(sq)[i]) by {
        assert(mask_has(b.spec_get_pc_board(Piece::Knight, player), sq));
        lemma_scan_all(knight_dest(sq), knight_step(this, other, sq), 64, holds);
    }
    lemma_scan_all(in_mask(this.knights), knight_moves_from(this, other), 64, holds);
    assert forall|sq: int, i: int|
        0 <= sq < 64 && in_mask(this.rooks)(sq) && 0 <= i < rook_moves_from(this, other)(
            sq,
        ).len() implies holds(#[trigger] rook_moves_from(this, other)(sq)[i]) by {
        assert(mask_has(b.spec_get_pc_board(Piece::Rook, player), sq));
        lemma_rook_moves_accepted(b, player, sq);
    }
    lemma_scan_all(in_mask(this.rooks), rook_moves_from(this, other), 64, holds);
    assert(spec_generate_moves(b, player) == all_moves(player, this, other));
}

} // verus!
