//! The pseudo-legal move generator, for pawns, knights and rooks.

pub use crate::attack::AttackTables;
use crate::attack::{dist, knight_reach, pawn_capture_reach, pawn_push_reach};
use crate::bits::mask_has;
use crate::board::{lemma_side_occupancy, Board, Color, PartialBoard, Piece};
pub use crate::square::{parse_move, Case, CaseIterator, Flags, GenMove};
use crate::square::{on_board, sq_at, sq_col, sq_row};
use vstd::prelude::*;

verus! {

/// The move from `from` to `to`, flagged as a capture or not flagged.
pub open spec fn spec_move(from: int, to: int, capture: bool) -> GenMove {
    GenMove {
        from: Case(from as u8),
        to: Case(to as u8),
        flags: if capture {
            Flags::capture()
        } else {
            Flags::none()
        },
        promotion: None,
    }
}

/// The moves that `per` gives for each of the squares below `n` that `sel`
/// picks, one square's moves after another's, in ascending order of the
/// squares.
pub open spec fn scan(
    sel: spec_fn(int) -> bool,
    n: int,
    per: spec_fn(int) -> Seq<GenMove>,
) -> Seq<GenMove>
    decreases n,
{
    if n <= 0 {
        Seq::empty()
    } else if sel(n - 1) {
        scan(sel, n - 1, per) + per(n - 1)
    } else {
        scan(sel, n - 1, per)
    }
}

/// Squares that `sel` does not pick add nothing to a scan.
pub proof fn lemma_scan_skip(
    sel: spec_fn(int) -> bool,
    per: spec_fn(int) -> Seq<GenMove>,
    k: int,
    n: int,
)
    requires
        0 <= k <= n,
        forall|sq: int| k <= sq < n ==> !(#[trigger] sel(sq)),
    ensures
        scan(sel, n, per) == scan(sel, k, per),
    decreases n - k,
{
    if k < n {
        lemma_scan_skip(sel, per, k, n - 1);
    }
}

/// What holds of every move that `per` gives for a square that `sel` picks holds of
/// every move of the scan.
pub proof fn lemma_scan_all(
    sel: spec_fn(int) -> bool,
    per: spec_fn(int) -> Seq<GenMove>,
    n: int,
    holds: spec_fn(GenMove) -> bool,
)
    requires
        forall|sq: int, i: int|
            0 <= sq < n && sel(sq) && 0 <= i < per(sq).len() ==> holds(#[trigger] per(sq)[i]),
    ensures
        forall|i: int| 0 <= i < scan(sel, n, per).len() ==> holds(#[trigger] scan(sel, n, per)[i]),
    decreases n,
{
    if n > 0 {
        lemma_scan_all(sel, per, n - 1, holds);
        let shorter = scan(sel, n - 1, per);
        assert forall|i: int| 0 <= i < scan(sel, n, per).len() implies holds(
            #[trigger] scan(sel, n, per)[i],
        ) by {
            if i < shorter.len() {
                assert(scan(sel, n, per)[i] == shorter[i]);
            } else {
                assert(scan(sel, n, per)[i] == per(n - 1)[i - shorter.len()]);
            }
        }
    }
}

/// The squares of a mask, as a predicate.
pub open spec fn in_mask(mask: u64) -> spec_fn(int) -> bool {
    |sq: int| mask_has(mask, sq)
}

/// The squares that a knight on `from` jumps to.
pub open spec fn knight_dest(from: int) -> spec_fn(int) -> bool {
    |to: int| knight_reach(from, to)
}

/// The knight's move from `from` to `to`: none onto a piece of its own
/// side, a capture onto one of the other side, a plain move otherwise.
pub open spec fn knight_step(player: PartialBoard, other: PartialBoard, from: int) -> spec_fn(
    int,
) -> Seq<GenMove> {
    |to: int|
        if mask_has(player.all(), to) {
            Seq::empty()
        } else {
            seq![spec_move(from, to, mask_has(other.all(), to))]
        }
}

/// The moves of a knight on `from`, in ascending order of destination.
pub open spec fn knight_moves_from(player: PartialBoard, other: PartialBoard) -> spec_fn(
    int,
) -> Seq<GenMove> {
    |from: int| scan(knight_dest(from), 64, knight_step(player, other, from))
}

/// The knight moves of `player`: knight by knight in ascending order of
/// their squares.
pub open spec fn knight_moves(player: PartialBoard, other: PartialBoard) -> Seq<GenMove> {
    scan(in_mask(player.knights), 64, knight_moves_from(player, other))
}

/// Appends the moves of the knights of `player`.
pub fn generate_knight_moves(
    tables: &AttackTables,
    color: Color,
    player: &PartialBoard,
    other: &PartialBoard,
    moves: &mut Vec<GenMove>,
)
    ensures
        final(moves)@ == old(moves)@ + knight_moves(*player, *other),
{
    let ghost base = moves@;
    let ghost sel = in_mask(player.knights);
    let ghost per = knight_moves_from(*player, *other);
    let ghost mut k: int = 0;
    let mut pieces = CaseIterator::new(player.get_pc_board(Piece::Knight));
    loop
        invariant
            0 <= k <= 64,
            sel == in_mask(player.knights),
            per == knight_moves_from(*player, *other),
            forall|sq: int|
                #![trigger pieces.squares().contains(sq)]
                #![trigger sel(sq)]
                pieces.squares().contains(sq) <==> k <= sq < 64 && sel(sq),
            moves@ == base + scan(sel, k, per),
        ensures
            moves@ == base + scan(sel, 64, per),
        decreases 64 - k,
    {
        let piece = match pieces.next() {
            Some(piece) => piece,
            None => {
                proof {
                    lemma_scan_skip(sel, per, k, 64);
                }
                break ;
            },
        };
        let ghost from = piece.0 as int;
        let ghost reach = knight_dest(from);
        let ghost step = knight_step(*player, *other, from);
        let ghost mut j: int = 0;
        let ghost before = moves@;
        proof {
            lemma_scan_skip(sel, per, k, from);
        }
        let mut dests = CaseIterator::new(tables.knight(piece));
        loop
            invariant
                0 <= j <= 64,
                0 <= from < 64,
                from == piece.0,
                reach == knight_dest(from),
                step == knight_step(*player, *other, from),
                forall|sq: int|
                    #![trigger dests.squares().contains(sq)]
                    #![trigger reach(sq)]
                    dests.squares().contains(sq) <==> j <= sq < 64 && reach(sq),
                moves@ == before + scan(reach, j, step),
            ensures
                moves@ == before + scan(reach, 64, step),
            decreases 64 - j,
        {
            let dest = match dests.next() {
                Some(dest) => dest,
                None => {
                    proof {
                        lemma_scan_skip(reach, step, j, 64);
                    }
                    break ;
                },
            };
            proof {
                lemma_scan_skip(reach, step, j, dest.0 as int);
            }
            if player.all() & dest.board() == 0 {
                let flags = if other.all() & dest.board() == 0 {
                    Flags::none()
                } else {
                    Flags::capture()
                };
                moves.push(GenMove::new(piece, dest, flags));
            }
            proof {
                j = dest.0 + 1;
                assert(moves@ =~= before + scan(reach, j, step));
            }
        }
        proof {
            k = from + 1;
            assert(moves@ =~= base + scan(sel, k, per));
        }
    }
}

/// The squares on which a pawn of color `c` on `from` captures.
pub open spec fn pawn_capture_dest(c: Color, from: int) -> spec_fn(int) -> bool {
    |to: int| pawn_capture_reach(c, from, to)
}

/// The squares that a pawn of color `c` on `from` is pushed to.
pub open spec fn pawn_push_dest(c: Color, from: int) -> spec_fn(int) -> bool {
    |to: int| pawn_push_reach(c, from, to)
}

/// The pawn's capture from `from` on `to`: one where a piece of the other
/// side stands on `to`, none otherwise.
pub open spec fn pawn_capture_step(other: PartialBoard, from: int) -> spec_fn(int) -> Seq<
    GenMove,
> {
    |to: int|
        if mask_has(other.all(), to) {
            seq![spec_move(from, to, true)]
        } else {
            Seq::empty()
        }
}

/// No piece of either side stands on `sq`.
pub open spec fn free(player: PartialBoard, other: PartialBoard, sq: int) -> bool {
    !mask_has(player.all(), sq) && !mask_has(other.all(), sq)
}

/// The way of a push from `from` to `to` is open: `to` is free, and so is
/// the square in between where the push is a double step.
pub open spec fn push_open(player: PartialBoard, other: PartialBoard, from: int, to: int) -> bool {
    free(player, other, to) && (dist(from, to) == 16 ==> free(player, other, (from + to) / 2))
}

/// The pawn's push from `from` to `to`: one where the way is open, none
/// otherwise.
pub open spec fn pawn_push_step(player: PartialBoard, other: PartialBoard, from: int) -> spec_fn(
    int,
) -> Seq<GenMove> {
    |to: int|
        if push_open(player, other, from, to) {
            seq![spec_move(from, to, false)]
        } else {
            Seq::empty()
        }
}

/// The captures of a pawn on `from`, in ascending order of destination.
pub open spec fn pawn_captures_from(c: Color, other: PartialBoard, from: int) -> Seq<GenMove> {
    scan(pawn_capture_dest(c, from), 64, pawn_capture_step(other, from))
}

/// The moves of a pawn on `from`: its captures, and its pushes only where
/// it has no capture; each in ascending order of destination.
pub open spec fn pawn_moves_from(c: Color, player: PartialBoard, other: PartialBoard) -> spec_fn(
    int,
) -> Seq<GenMove> {
    |from: int|
        if pawn_captures_from(c, other, from).len() > 0 {
            pawn_captures_from(c, other, from)
        } else {
            scan(pawn_push_dest(c, from), 64, pawn_push_step(player, other, from))
        }
}

/// The pawn moves of `player`: pawn by pawn in ascending order of their
/// squares.
pub open spec fn pawn_moves(c: Color, player: PartialBoard, other: PartialBoard) -> Seq<GenMove> {
    scan(in_mask(player.pawns), 64, pawn_moves_from(c, player, other))
}

/// Appends the moves of the pawns of `player`, whose color is `color`.
pub fn generate_pawn_moves(
    tables: &AttackTables,
    color: Color,
    player: &PartialBoard,
    other: &PartialBoard,
    moves: &mut Vec<GenMove>,
)
    ensures
        final(moves)@ == old(moves)@ + pawn_moves(color, *player, *other),
{
    let ghost base = moves@;
    let ghost sel = in_mask(player.pawns);
    let ghost per = pawn_moves_from(color, *player, *other);
    let ghost mut k: int = 0;
    let mut pieces = CaseIterator::new(player.get_pc_board(Piece::Pawn));
    loop
        invariant
            0 <= k <= 64,
            sel == in_mask(player.pawns),
            per == pawn_moves_from(color, *player, *other),
            forall|sq: int|
                #![trigger pieces.squares().contains(sq)]
                #![trigger sel(sq)]
                pieces.squares().contains(sq) <==> k <= sq < 64 && sel(sq),
            moves@ == base + scan(sel, k, per),
        ensures
            moves@ == base + scan(sel, 64, per),
        decreases 64 - k,
    {
        let piece = match pieces.next() {
            Some(piece) => piece,
            None => {
                proof {
                    lemma_scan_skip(sel, per, k, 64);
                }
                break ;
            },
        };
        let ghost from = piece.0 as int;
        let ghost before = moves@;
        proof {
            lemma_scan_skip(sel, per, k, from);
        }
        let mut capture = false;

        let ghost reach = pawn_capture_dest(color, from);
        let ghost step = pawn_capture_step(*other, from);
        let ghost mut j: int = 0;
        let mut dests = CaseIterator::new(tables.pawn_captures(color, piece));
        loop
            invariant
                0 <= j <= 64,
                0 <= from < 64,
                from == piece.0,
                reach == pawn_capture_dest(color, from),
                step == pawn_capture_step(*other, from),
                forall|sq: int|
                    #![trigger dests.squares().contains(sq)]
                    #![trigger reach(sq)]
                    dests.squares().contains(sq) <==> j <= sq < 64 && reach(sq),
                moves@ == before + scan(reach, j, step),
                capture == (scan(reach, j, step).len() > 0),
            ensures
                moves@ == before + scan(reach, 64, step),
                capture == (scan(reach, 64, step).len() > 0),
            decreases 64 - j,
        {
            let dest = match dests.next() {
                Some(dest) => dest,
                None => {
                    proof {
                        lemma_scan_skip(reach, step, j, 64);
                    }
                    break ;
                },
            };
            proof {
                lemma_scan_skip(reach, step, j, dest.0 as int);
            }
            if other.all() & dest.board() != 0 {
                moves.push(GenMove::new(piece, dest, Flags::capture()));
                capture = true;
            }
            proof {
                j = dest.0 + 1;
                assert(moves@ =~= before + scan(reach, j, step));
            }
        }
        if !capture {
            let ghost reach = pawn_push_dest(color, from);
            let ghost step = pawn_push_step(*player, *other, from);
            let ghost mut j: int = 0;
            assert(moves@ =~= before);
            let mut dests = CaseIterator::new(tables.pawn_pushes(color, piece));
            loop
                invariant
                    0 <= j <= 64,
                    0 <= from < 64,
                    from == piece.0,
                    reach == pawn_push_dest(color, from),
                    step == pawn_push_step(*player, *other, from),
                    forall|sq: int|
                        #![trigger dests.squares().contains(sq)]
                        #![trigger reach(sq)]
                        dests.squares().contains(sq) <==> j <= sq < 64 && reach(sq),
                    moves@ == before + scan(reach, j, step),
                ensures
                    moves@ == before + scan(reach, 64, step),
                decreases 64 - j,
            {
                let dest = match dests.next() {
                    Some(dest) => dest,
                    None => {
                        proof {
                            lemma_scan_skip(reach, step, j, 64);
                        }
                        break ;
                    },
                };
                proof {
                    lemma_scan_skip(reach, step, j, dest.0 as int);
                    assert(reach(dest.0 as int));
                }
                if is_free(player, other, dest) && (!is_double_step(piece, dest) || is_free(
                    player,
                    other,
                    midway(piece, dest),
                )) {
                    moves.push(GenMove::new(piece, dest, Flags::none()))
                }
                proof {
                    j = dest.0 + 1;
                    assert(moves@ =~= before + scan(reach, j, step));
                }
            }
        }
        proof {
            k = from + 1;
            assert(moves@ =~= base + scan(sel, k, per));
        }
    }
}

/// Whether no piece of either side stands on the square.
fn is_free(player: &PartialBoard, other: &PartialBoard, sq: Case) -> (r: bool)
    requires
        sq.valid(),
    ensures
        r == free(*player, *other, sq.0 as int),
{
    player.all() & sq.board() == 0 && other.all() & sq.board() == 0
}

/// Whether the two squares lie two ranks apart.
fn is_double_step(from: Case, to: Case) -> (r: bool)
    ensures
        r == (dist(from.0 as int, to.0 as int) == 16),
{
    (from.0 >= 16 && to.0 == from.0 - 16) || (to.0 >= 16 && from.0 == to.0 - 16)
}

/// The square halfway between two squares.
fn midway(from: Case, to: Case) -> (r: Case)
    requires
        from.valid(),
        to.valid(),
    ensures
        r.valid(),
        r.0 == (from.0 + to.0) / 2,
{
    Case((from.0 + to.0) / 2)
}

/// How many steps from `cur` in the direction (`row`, `col`) stay on the
/// board, counted along the first axis on which the direction moves.
pub open spec fn ray_room(cur: int, row: int, col: int) -> int {
    if row > 0 {
        7 - sq_row(cur)
    } else if row < 0 {
        sq_row(cur)
    } else if col > 0 {
        7 - sq_col(cur)
    } else if col < 0 {
        sq_col(cur)
    } else {
        0
    }
}

/// The moves of a sliding piece on `from` along the ray that leaves `cur`
/// in the direction (`row`, `col`): a plain move to each free square, in
/// the order of the walk, up to the first piece; a capture onto that piece
/// if it is of the other side.
pub open spec fn ray(
    player: PartialBoard,
    other: PartialBoard,
    from: int,
    cur: int,
    row: int,
    col: int,
) -> Seq<GenMove>
    decreases ray_room(cur, row, col),
{
    let next = sq_at(sq_row(cur) + row, sq_col(cur) + col);
    if !(0 <= cur < 64) || (row == 0 && col == 0) || !on_board(sq_row(cur) + row, sq_col(cur) + col) {
        Seq::empty()
    } else if mask_has(player.all(), next) {
        Seq::empty()
    } else if mask_has(other.all(), next) {
        seq![spec_move(from, next, true)]
    } else {
        seq![spec_move(from, next, false)] + ray(player, other, from, next, row, col)
    }
}

/// The moves of a rook on `from`: up the file, down the file, right along
/// the rank, left along the rank.
pub open spec fn rook_moves_from(player: PartialBoard, other: PartialBoard) -> spec_fn(int) -> Seq<
    GenMove,
> {
    |from: int|
        ray(player, other, from, from, 1, 0) + ray(player, other, from, from, -1, 0) + ray(
            player,
            other,
            from,
            from,
            0,
            1,
        ) + ray(player, other, from, from, 0, -1)
}

/// The rook moves of `player`: rook by rook in ascending order of their
/// squares.
pub open spec fn rook_moves(player: PartialBoard, other: PartialBoard) -> Seq<GenMove> {
    scan(in_mask(player.rooks), 64, rook_moves_from(player, other))
}

/// Appends the moves of the piece on `from` along one ray.
fn generate_ray(
    from: Case,
    row: i8,
    col: i8,
    player: &PartialBoard,
    other: &PartialBoard,
    moves: &mut Vec<GenMove>,
)
    requires
        from.valid(),
        row != 0 || col != 0,
    ensures
        final(moves)@ == old(moves)@ + ray(*player, *other, from.0 as int, from.0 as int, row as int, col as int),
{
    let ghost base = moves@;
    let ghost whole = ray(*player, *other, from.0 as int, from.0 as int, row as int, col as int);
    let mut cur = from;
    loop
        invariant_except_break
            base + whole == moves@ + ray(
                *player,
                *other,
                from.0 as int,
                cur.0 as int,
                row as int,
                col as int,
            ),
        invariant
            from.valid(),
            cur.valid(),
            row != 0 || col != 0,
            whole == ray(*player, *other, from.0 as int, from.0 as int, row as int, col as int),
        ensures
            moves@ == base + whole,
        decreases ray_room(cur.0 as int, row as int, col as int),
    {
        let ghost rest = ray(*player, *other, from.0 as int, cur.0 as int, row as int, col as int);
        let ghost old_moves = moves@;
        let ghost next_row = sq_row(cur.0 as int) + row;
        let ghost next_col = sq_col(cur.0 as int) + col;
        let dest = match cur.try_offset(row, col) {
            Some(dest) => dest,
            None => {
                assert(!on_board(next_row, next_col));
                assert(rest =~= Seq::empty());
                assert(moves@ =~= base + whole);
                break ;
            },
        };
        assert(on_board(next_row, next_col));
        assert(dest.0 == sq_at(next_row, next_col));
        assert(sq_row(dest.0 as int) == next_row && sq_col(dest.0 as int) == next_col);
        cur = dest;
        if player.all() & cur.board() != 0 {
            assert(rest =~= Seq::empty());
            assert(moves@ =~= base + whole);
            break ;
        } else if other.all() & cur.board() != 0 {
            moves.push(GenMove::new(from, dest, Flags::capture()));
            assert(rest =~= seq![spec_move(from.0 as int, dest.0 as int, true)]);
            assert(moves@ =~= old_moves + rest);
            break ;
        }
        moves.push(GenMove::new(from, dest, Flags::none()));
        assert(rest =~= seq![spec_move(from.0 as int, dest.0 as int, false)] + ray(
            *player,
            *other,
            from.0 as int,
            dest.0 as int,
            row as int,
            col as int,
        ));
        assert(moves@ + ray(*player, *other, from.0 as int, cur.0 as int, row as int, col as int)
            =~= old_moves + rest);
    }
}

/// Appends the moves of the rooks of `player`.
pub fn generate_rook_moves(
    color: Color,
    player: &PartialBoard,
    other: &PartialBoard,
    moves: &mut Vec<GenMove>,
)
    ensures
        final(moves)@ == old(moves)@ + rook_moves(*player, *other),
{
    let ghost base = moves@;
    let ghost sel = in_mask(player.rooks);
    let ghost per = rook_moves_from(*player, *other);
    let ghost mut k: int = 0;
    let mut pieces = CaseIterator::new(player.rooks);
    loop
        invariant
            0 <= k <= 64,
            sel == in_mask(player.rooks),
            per == rook_moves_from(*player, *other),
            forall|sq: int|
                #![trigger pieces.squares().contains(sq)]
                #![trigger sel(sq)]
                pieces.squares().contains(sq) <==> k <= sq < 64 && sel(sq),
            moves@ == base + scan(sel, k, per),
        ensures
            moves@ == base + scan(sel, 64, per),
        decreases 64 - k,
    {
        let rook = match pieces.next() {
            Some(rook) => rook,
            None => {
                proof {
                    lemma_scan_skip(sel, per, k, 64);
                }
                break ;
            },
        };
        proof {
            lemma_scan_skip(sel, per, k, rook.0 as int);
        }
        generate_ray(rook, 1, 0, player, other, moves);
        generate_ray(rook, -1, 0, player, other, moves);
        generate_ray(rook, 0, 1, player, other, moves);
        generate_ray(rook, 0, -1, player, other, moves);
        proof {
            k = rook.0 + 1;
            assert(moves@ =~= base + scan(sel, k, per));
        }
    }
}

/// The moves of the side `this`, of color `player`, against `other`: pawn
/// moves, then knight moves, then rook moves. Bishops, queens and the king
/// get none.
pub open spec fn all_moves(player: Color, this: PartialBoard, other: PartialBoard) -> Seq<GenMove> {
    pawn_moves(player, this, other) + knight_moves(this, other) + rook_moves(this, other)
}

/// Appends the moves of the side `this`.
pub fn generate_all_moves(
    tables: &AttackTables,
    player: Color,
    this: &PartialBoard,
    other: &PartialBoard,
    moves: &mut Vec<GenMove>,
)
    ensures
        final(moves)@ == old(moves)@ + all_moves(player, *this, *other),
{
    generate_pawn_moves(tables, player, this, other, moves);
    generate_knight_moves(tables, player, this, other, moves);
    generate_rook_moves(player, this, other, moves);
    assert(moves@ =~= old(moves)@ + all_moves(player, *this, *other));
}

/// The pseudo-legal moves of `player` on board `b`: whether a move leaves
/// the mover's king attacked is not looked at.
pub open spec fn spec_generate_moves(b: Board, player: Color) -> Seq<GenMove> {
    all_moves(player, *b.color(player), *b.color(player.rev()))
}

/// The pseudo-legal moves of `player` on board `b`.
pub fn generate_moves(tables: &AttackTables, b: &Board, player: Color) -> (moves: Vec<GenMove>)
    ensures
        moves@ == spec_generate_moves(*b, player),
{
    let mut moves = Vec::new();
    let (this, other) = (b.get_player_board(player), b.get_player_board(player.rev()));

    generate_all_moves(tables, player, this, other, &mut moves);

    moves
}

/// What every generated move has: both squares on the board, a piece of
/// the mover's side on the origin, no promotion, and the capture flag
/// exactly where a piece of the other side stands on the destination.
pub open spec fn shaped(this: PartialBoard, other: PartialBoard) -> spec_fn(GenMove) -> bool {
    |m: GenMove|
        {
            &&& m.valid()
            &&& mask_has(this.all(), m.from.0 as int)
            &&& m.promotion is None
            &&& m.flags == (if mask_has(other.all(), m.to.0 as int) {
                Flags::capture()
            } else {
                Flags::none()
            })
            &&& m.flags == Flags::none() ==> !mask_has(this.all(), m.to.0 as int)
        }
}

proof fn lemma_ray_shaped(
    this: PartialBoard,
    other: PartialBoard,
    from: int,
    cur: int,
    row: int,
    col: int,
)
    requires
        0 <= from < 64,
        mask_has(this.all(), from),
    ensures
        forall|i: int|
            0 <= i < ray(this, other, from, cur, row, col).len() ==> shaped(this, other)(
                #[trigger] ray(this, other, from, cur, row, col)[i],
            ),
    decreases ray_room(cur, row, col),
{
    let next = sq_at(sq_row(cur) + row, sq_col(cur) + col);
    if !(0 <= cur < 64) || (row == 0 && col == 0) || !on_board(sq_row(cur) + row, sq_col(cur) + col) {
    } else if mask_has(this.all(), next) {
    } else if mask_has(other.all(), next) {
    } else {
        lemma_ray_shaped(this, other, from, next, row, col);
        let whole = ray(this, other, from, cur, row, col);
        let rest = ray(this, other, from, next, row, col);
        assert forall|i: int| 0 <= i < whole.len() implies shaped(this, other)(
            #[trigger] whole[i],
        ) by {
            if i > 0 {
                assert(whole[i] == rest[i - 1]);
            }
        }
    }
}

/// Every generated move has the shape that `shaped` states.
pub proof fn lemma_all_moves_shaped(player: Color, this: PartialBoard, other: PartialBoard)
    ensures
        forall|i: int|
            0 <= i < all_moves(player, this, other).len() ==> shaped(this, other)(
                #[trigger] all_moves(player, this, other)[i],
            ),
{
    let holds = shaped(this, other);
    assert forall|sq: int, i: int|
        0 <= sq < 64 && in_mask(this.pawns)(sq) && 0 <= i < pawn_moves_from(player, this, other)(
            sq,
        ).len() implies holds(#[trigger] pawn_moves_from(player, this, other)(sq)[i]) by {
        lemma_side_occupancy(this, sq);
        assert(mask_has(this.get_pc_board(Piece::Pawn), sq));
        lemma_scan_all(
            pawn_capture_dest(player, sq),
            pawn_capture_step(other, sq),
            64,
            holds,
        );
        lemma_scan_all(
            pawn_push_dest(player, sq),
            pawn_push_step(this, other, sq),
            64,
            holds,
        );
    }
    lemma_scan_all(in_mask(this.pawns), pawn_moves_from(player, this, other), 64, holds);
    assert forall|sq: int, i: int|
        0 <= sq < 64 && in_mask(this.knights)(sq) && 0 <= i < knight_moves_from(this, other)(
            sq,
        ).len() implies holds(#[trigger] knight_moves_from(this, other)(sq)[i]) by {
        lemma_side_occupancy(this, sq);
        assert(mask_has(this.get_pc_board(Piece::Knight), sq));
        lemma_scan_all(knight_dest(sq), knight_step(this, other, sq), 64, holds);
    }
    lemma_scan_all(in_mask(this.knights), knight_moves_from(this, other), 64, holds);
    assert forall|sq: int, i: int|
        0 <= sq < 64 && in_mask(this.rooks)(sq) && 0 <= i < rook_moves_from(this, other)(
            sq,
        ).len() implies holds(#[trigger] rook_moves_from(this, other)(sq)[i]) by {
        lemma_side_occupancy(this, sq);
        assert(mask_has(this.get_pc_board(Piece::Rook), sq));
        lemma_ray_shaped(this, other, sq, sq, 1, 0);
        lemma_ray_shaped(this, other, sq, sq, -1, 0);
        lemma_ray_shaped(this, other, sq, sq, 0, 1);
        lemma_ray_shaped(this, other, sq, sq, 0, -1);
    }
    lemma_scan_all(in_mask(this.rooks), rook_moves_from(this, other), 64, holds);
}

/// Every move that is generated for `player` on `b` starts on a square
/// where `b` holds a piece, so `Board::apply` plays it.
pub proof fn lemma_generated_moves_apply(b: Board, player: Color, i: int)
    requires
        0 <= i < spec_generate_moves(b, player).len(),
    ensures
        spec_generate_moves(b, player)[i].valid(),
        shaped(*b.color(player), *b.color(player.rev()))(spec_generate_moves(b, player)[i]),
        b.piece_at(spec_generate_moves(b, player)[i].from.0 as int) is Some,
        b.spec_apply(spec_generate_moves(b, player)[i]) is Some,
{
    lemma_all_moves_shaped(player, *b.color(player), *b.color(player.rev()));
    let m = spec_generate_moves(b, player)[i];
    lemma_side_occupancy(b.white, m.from.0 as int);
    lemma_side_occupancy(b.black, m.from.0 as int);
}

} // verus!
