//! The position model: colors, piece kinds, and boards packed as one
//! bitmask per color and piece kind.

use crate::bits::{
    lemma_empty_mask, lemma_mask_ext, lemma_mask_insert, lemma_mask_remove, lemma_mask_union,
    lemma_no_square_is_empty, lemma_start_masks, mask_has, square_bit,
};
use crate::notation::{board_text, glyph, rank_label, rank_text, ranks_text};
pub use crate::notation::{parse, parse_fen, parse_fen_color};
use crate::square::{Case, GenMove};
use vstd::prelude::*;

verus! {

/// The side that owns a piece, or that is to move.
#[derive(Debug, Clone, Copy, PartialEq, Eq)]
pub enum Color {
    White,
    Black,
}

impl Color {
    /// The other color.
    pub open spec fn spec_rev(&self) -> Color {
        match *self {
            Color::White => Color::Black,
            Color::Black => Color::White,
        }
    }

    /// The other color.
    #[verifier::when_used_as_spec(spec_rev)]
    pub fn rev(&self) -> (r: Color)
        ensures
            r == self.spec_rev(),
    {
        match *self {
            Color::White => Color::Black,
            Color::Black => Color::White,
        }
    }

    /// Picks the value that belongs to this color.
    pub fn map<T>(&self, white: T, black: T) -> (r: T)
        ensures
            r == (match *self {
                Color::White => white,
                Color::Black => black,
            }),
    {
        match *self {
            Color::White => white,
            Color::Black => black,
        }
    }
}

impl std::ops::Not for Color {
    type Output = Color;

    fn not(self) -> (r: Color) {
        self.rev()
    }
}

impl vstd::std_specs::ops::NotSpecImpl for Color {
    open spec fn obeys_not_spec() -> bool {
        true
    }

    open spec fn not_req(self) -> bool {
        true
    }

    open spec fn not_spec(self) -> Color {
        self.spec_rev()
    }
}

/// The kind of a piece.
#[derive(Debug, Clone, Copy, PartialEq, Eq)]
pub enum Piece {
    Pawn,
    Knight,
    Bishop,
    Rook,
    Queen,
    King,
}

/// The pieces of one color: one mask of squares per piece kind.
#[derive(Debug, Clone, Copy, PartialEq, Eq)]
pub struct PartialBoard {
    pub pawns: u64,
    pub knights: u64,
    pub bishops: u64,
    pub rooks: u64,
    pub queens: u64,
    pub king: u64,
}

impl PartialBoard {
    /// The mask of one piece kind.
    pub open spec fn spec_get_pc_board(&self, p: Piece) -> u64 {
        match p {
            Piece::Pawn => self.pawns,
            Piece::Knight => self.knights,
            Piece::Bishop => self.bishops,
            Piece::Rook => self.rooks,
            Piece::Queen => self.queens,
            Piece::King => self.king,
        }
    }

    /// This side with the mask of one piece kind replaced.
    pub open spec fn with_mask(self, p: Piece, mask: u64) -> PartialBoard {
        match p {
            Piece::Pawn => PartialBoard { pawns: mask, ..self },
            Piece::Knight => PartialBoard { knights: mask, ..self },
            Piece::Bishop => PartialBoard { bishops: mask, ..self },
            Piece::Rook => PartialBoard { rooks: mask, ..self },
            Piece::Queen => PartialBoard { queens: mask, ..self },
            Piece::King => PartialBoard { king: mask, ..self },
        }
    }

    /// Every square that holds a piece of this side.
    pub open spec fn spec_all(&self) -> u64 {
        self.pawns | self.knights | self.bishops | self.rooks | self.queens | self.king
    }

    /// The piece of this side on `sq`; where masks overlap the first kind in
    /// the order pawn, knight, bishop, rook, queen, king.
    pub open spec fn piece_at(self, sq: int) -> Option<Piece> {
        if mask_has(self.pawns, sq) {
            Some(Piece::Pawn)
        } else if mask_has(self.knights, sq) {
            Some(Piece::Knight)
        } else if mask_has(self.bishops, sq) {
            Some(Piece::Bishop)
        } else if mask_has(self.rooks, sq) {
            Some(Piece::Rook)
        } else if mask_has(self.queens, sq) {
            Some(Piece::Queen)
        } else if mask_has(self.king, sq) {
            Some(Piece::King)
        } else {
            None
        }
    }

    /// No square holds two pieces: the six masks are pairwise disjoint.
    pub open spec fn wf(self) -> bool {
        forall|sq: int, p: Piece| #[trigger]
            mask_has(self.spec_get_pc_board(p), sq) ==> self.piece_at(sq) == Some(p)
    }

    /// The side without pieces.
    pub open spec fn spec_empty() -> PartialBoard {
        PartialBoard { pawns: 0, knights: 0, bishops: 0, rooks: 0, queens: 0, king: 0 }
    }

    /// The side without pieces.
    #[verifier::when_used_as_spec(spec_empty)]
    pub fn empty() -> (r: PartialBoard)
        ensures
            r == PartialBoard::spec_empty(),
            r.wf(),
    {
        let r = PartialBoard {
            pawns: 0u64,
            knights: 0u64,
            bishops: 0u64,
            rooks: 0u64,
            queens: 0u64,
            king: 0u64,
        };
        proof {
            assert forall|sq: int, p: Piece| #[trigger]
                mask_has(r.spec_get_pc_board(p), sq) implies r.piece_at(sq) == Some(p) by {
                lemma_empty_mask(sq);
            }
        }
        r
    }

    /// Every square that holds a piece of this side.
    #[verifier::when_used_as_spec(spec_all)]
    pub fn all(&self) -> (r: u64)
        ensures
            r == self.spec_all(),
    {
        self.pawns | self.knights | self.bishops | self.rooks | self.queens | self.king
    }

    /// The mask of one piece kind.
    #[verifier::when_used_as_spec(spec_get_pc_board)]
    pub fn get_pc_board(&self, p: Piece) -> (r: u64)
        ensures
            r == self.spec_get_pc_board(p),
    {
        match p {
            Piece::Pawn => self.pawns,
            Piece::Knight => self.knights,
            Piece::Bishop => self.bishops,
            Piece::Rook => self.rooks,
            Piece::Queen => self.queens,
            Piece::King => self.king,
        }
    }

    /// The mask of one piece kind, to be changed in place.
    pub fn get_pc_board_mut(&mut self, p: Piece) -> (r: &mut u64)
        ensures
            *r == old(self).spec_get_pc_board(p),
            *final(self) == old(self).with_mask(p, *final(r)),
    {
        match p {
            Piece::Pawn => &mut self.pawns,
            Piece::Knight => &mut self.knights,
            Piece::Bishop => &mut self.bishops,
            Piece::Rook => &mut self.rooks,
            Piece::Queen => &mut self.queens,
            Piece::King => &mut self.king,
        }
    }

    /// The piece of this side on file `x` of rank `y`.
    fn at(&self, x: u8, y: u8) -> (r: Option<Piece>)
        requires
            y * 8 + x < 64,
        ensures
            r == self.piece_at(y * 8 + x),
    {
        if Board::has(self.pawns, x, y) {
            Some(Piece::Pawn)
        } else if Board::has(self.knights, x, y) {
            Some(Piece::Knight)
        } else if Board::has(self.bishops, x, y) {
            Some(Piece::Bishop)
        } else if Board::has(self.rooks, x, y) {
            Some(Piece::Rook)
        } else if Board::has(self.queens, x, y) {
            Some(Piece::Queen)
        } else if Board::has(self.king, x, y) {
            Some(Piece::King)
        } else {
            None
        }
    }
}

/// A square of this side holds a piece exactly when the side's occupancy
/// mask has the square.
pub proof fn lemma_side_occupancy(side: PartialBoard, sq: int)
    ensures
        mask_has(side.all(), sq) == side.piece_at(sq).is_some(),
        forall|p: Piece| #[trigger] mask_has(side.get_pc_board(p), sq) ==> mask_has(side.all(), sq),
{
    lemma_mask_union(side.pawns, side.knights, sq);
    lemma_mask_union(side.pawns | side.knights, side.bishops, sq);
    lemma_mask_union(side.pawns | side.knights | side.bishops, side.rooks, sq);
    lemma_mask_union(side.pawns | side.knights | side.bishops | side.rooks, side.queens, sq);
    lemma_mask_union(
        side.pawns | side.knights | side.bishops | side.rooks | side.queens,
        side.king,
        sq,
    );
}

/// A full position: the pieces of White and of Black.
#[derive(Debug, Clone, Copy, PartialEq, Eq)]
pub struct Board {
    pub white: PartialBoard,
    pub black: PartialBoard,
}

impl View for Board {
    type V = Seq<Option<(Piece, Color)>>;

    /// The board square by square: entry `rank * 8 + file` is the piece
    /// that stands there.
    open spec fn view(&self) -> Seq<Option<(Piece, Color)>> {
        Seq::new(64, |sq: int| self.piece_at(sq))
    }
}

impl Board {
    /// The pieces of one color.
    pub open spec fn spec_color(&self, color: Color) -> &PartialBoard {
        match color {
            Color::White => &self.white,
            Color::Black => &self.black,
        }
    }

    /// The mask of one piece kind of one color.
    pub open spec fn spec_get_pc_board(&self, p: Piece, c: Color) -> u64 {
        self.spec_color(c).spec_get_pc_board(p)
    }

    /// This board with the mask of one piece kind of one color replaced.
    pub open spec fn with_mask(self, p: Piece, c: Color, mask: u64) -> Board {
        match c {
            Color::White => Board { white: self.white.with_mask(p, mask), ..self },
            Color::Black => Board { black: self.black.with_mask(p, mask), ..self },
        }
    }

    /// Every occupied square.
    pub open spec fn spec_all(&self) -> u64 {
        self.white.spec_all() | self.black.spec_all()
    }

    /// The piece on `sq` and its color; where masks overlap, White's pieces
    /// come before Black's.
    pub open spec fn piece_at(self, sq: int) -> Option<(Piece, Color)> {
        match self.white.piece_at(sq) {
            Some(p) => Some((p, Color::White)),
            None => match self.black.piece_at(sq) {
                Some(p) => Some((p, Color::Black)),
                None => None,
            },
        }
    }

    /// No square holds two pieces: the twelve masks are pairwise disjoint.
    pub open spec fn wf(self) -> bool {
        forall|sq: int, p: Piece, c: Color| #[trigger]
            mask_has(self.spec_get_pc_board(p, c), sq) ==> self.piece_at(sq) == Some((p, c))
    }

    /// The board without pieces.
    pub open spec fn spec_empty() -> Board {
        Board { white: PartialBoard::spec_empty(), black: PartialBoard::spec_empty() }
    }

    /// The board without pieces.
    #[verifier::when_used_as_spec(spec_empty)]
    pub fn empty() -> (r: Board)
        ensures
            r == Board::spec_empty(),
            r.wf(),
            forall|sq: int| #[trigger] r.piece_at(sq) is None,
    {
        proof {
            lemma_empty_board();
        }
        Board { white: PartialBoard::empty(), black: PartialBoard::empty() }
    }

    /// The standard opening layout.
    pub open spec fn spec_new_start() -> Board {
        Board {
            white: PartialBoard {
                pawns: 0xFF00,
                knights: 0x42,
                bishops: 0x24,
                rooks: 0x81,
                queens: 0x08,
                king: 0x10,
            },
            black: PartialBoard {
                pawns: 0x00FF_0000_0000_0000,
                knights: 0x4200_0000_0000_0000,
                bishops: 0x2400_0000_0000_0000,
                rooks: 0x8100_0000_0000_0000,
                queens: 0x0800_0000_0000_0000,
                king: 0x1000_0000_0000_0000,
            },
        }
    }

    /// The standard opening layout: White on ranks 1 and 2, Black on ranks
    /// 7 and 8, each with its pawns in front of rook, knight, bishop,
    /// queen, king, bishop, knight, rook.
    #[verifier::when_used_as_spec(spec_new_start)]
    pub fn new_start() -> (r: Board)
        ensures
            r == Board::spec_new_start(),
            r.wf(),
            forall|sq: int| #[trigger] r.piece_at(sq) == start_piece_at(sq),
    {
        let r = Board {
            white: PartialBoard {
                pawns: 0xFF00u64,
                knights: 0x42u64,
                bishops: 0x24u64,
                rooks: 0x81u64,
                queens: 0x08u64,
                king: 0x10u64,
            },
            black: PartialBoard {
                pawns: 0x00FF_0000_0000_0000u64,
                knights: 0x4200_0000_0000_0000u64,
                bishops: 0x2400_0000_0000_0000u64,
                rooks: 0x8100_0000_0000_0000u64,
                queens: 0x0800_0000_0000_0000u64,
                king: 0x1000_0000_0000_0000u64,
            },
        };
        proof {
            lemma_start_layout();
        }
        r
    }

    /// This board with square `sq` taken off the mask of piece `p` of color `c`.
    pub open spec fn removed(self, p: Piece, c: Color, sq: int) -> Board {
        self.with_mask(p, c, self.spec_get_pc_board(p, c) & !square_bit(sq))
    }

    /// This board with square `sq` added to the mask of piece `p` of color `c`.
    pub open spec fn placed(self, p: Piece, c: Color, sq: int) -> Board {
        self.with_mask(p, c, self.spec_get_pc_board(p, c) | square_bit(sq))
    }

    /// This board with whatever `piece_at` finds on `sq` taken off.
    pub open spec fn cleared(self, sq: int) -> Board {
        match self.piece_at(sq) {
            Some((p, c)) => self.removed(p, c, sq),
            None => self,
        }
    }

    /// The board after a move: the piece on the move's origin leaves it,
    /// whatever then stands on the destination is taken off, and the mover,
    /// or the piece it is promoted to, is put there in the mover's color.
    /// No board where the origin is empty.
    pub open spec fn spec_apply(&self, m: GenMove) -> Option<Board> {
        match self.piece_at(m.from.0 as int) {
            None => None,
            Some((p, c)) => Some(
                self.removed(p, c, m.from.0 as int).cleared(m.to.0 as int).placed(
                    match m.promotion {
                        Some(q) => q,
                        None => p,
                    },
                    c,
                    m.to.0 as int,
                ),
            ),
        }
    }

    /// Plays a move without judging it. On a board where no square holds
    /// two pieces the result is again such a board, and differs from this
    /// one on the two squares of the move only.
    pub fn apply(&self, m: &GenMove) -> (r: Option<Board>)
        requires
            m.valid(),
        ensures
            r == self.spec_apply(*m),
            r is Some <==> self.piece_at(m.from.0 as int) is Some,
            self.wf() ==> (r matches Some(b) ==> {
                &&& b.wf()
                &&& b.piece_at(m.to.0 as int) == Some(
                    (
                        match m.promotion {
                            Some(q) => q,
                            None => self.piece_at(m.from.0 as int).unwrap().0,
                        },
                        self.piece_at(m.from.0 as int).unwrap().1,
                    ),
                )
                &&& m.from != m.to ==> b.piece_at(m.from.0 as int) is None
                &&& forall|sq: int|
                    sq != m.from.0 && sq != m.to.0 ==> #[trigger] b.piece_at(sq) == self.piece_at(
                        sq,
                    )
            }),
    {
        let (x, y) = m.from.pos();
        let (tx, ty) = m.to.pos();
        let (p, c) = match self.at(x, y) {
            Some(found) => found,
            None => {
                return None;
            },
        };

        let mut new = *self;
        {
            let from = new.get_pc_board_mut(p, c);
            Board::unset(from, x, y);
        }
        {
            // capture
            if let Some((cp, cc)) = new.at(tx, ty) {
                Board::unset(new.get_pc_board_mut(cp, cc), tx, ty);
            }
            // promotion

            let target_piece_board = match m.promotion {
                Some(q) => q,
                None => p,
            };
            let from = new.get_pc_board_mut(target_piece_board, c);
            Board::set(from, tx, ty);
        }
        proof {
            if self.wf() {
                lemma_apply(*self, *m);
            }
        }
        Some(new)
    }

    /// The pieces of one color.
    #[verifier::when_used_as_spec(spec_color)]
    pub fn color(&self, color: Color) -> (r: &PartialBoard)
        ensures
            r == self.spec_color(color),
    {
        match color {
            Color::White => &self.white,
            Color::Black => &self.black,
        }
    }

    /// Every occupied square.
    #[verifier::when_used_as_spec(spec_all)]
    pub fn all(&self) -> (r: u64)
        ensures
            r == self.spec_all(),
    {
        self.white.all() | self.black.all()
    }

    /// Adds square (`x`, `y`) to the mask.
    pub fn set(u: &mut u64, x: u8, y: u8)
        requires
            y * 8 + x < 64,
        ensures
            *final(u) == *old(u) | square_bit(y * 8 + x),
            forall|sq: int|
                #[trigger] mask_has(*final(u), sq) == (mask_has(*old(u), sq) || sq == y * 8 + x),
    {
        proof {
            assert forall|sq: int|
                mask_has(*u | square_bit(y * 8 + x), sq) == (mask_has(*u, sq) || sq == y * 8
                    + x) by {
                lemma_mask_insert(*u, y * 8 + x, sq);
            }
        }
        *u = *u | (1u64 << (y * 8 + x))
    }

    /// Takes square (`x`, `y`) off the mask: the square is absent
    /// afterwards and no other square changes; a mask that lacks the
    /// square stays as it is.
    pub fn unset(u: &mut u64, x: u8, y: u8)
        requires
            y * 8 + x < 64,
        ensures
            *final(u) == *old(u) & !square_bit(y * 8 + x),
            forall|sq: int|
                #[trigger] mask_has(*final(u), sq) == (mask_has(*old(u), sq) && sq != y * 8 + x),
            !mask_has(*old(u), y * 8 + x) ==> *final(u) == *old(u),
    {
        proof {
            assert forall|sq: int|
                mask_has(*u & !square_bit(y * 8 + x), sq) == (mask_has(*u, sq) && sq != y * 8
                    + x) by {
                lemma_mask_remove(*u, y * 8 + x, sq);
            }
            if !mask_has(*u, y * 8 + x) {
                lemma_mask_ext(*u & !square_bit(y * 8 + x), *u);
            }
        }
        *u = *u & !(1u64 << (y * 8 + x))
    }

    /// Whether the mask has square (`x`, `y`).
    pub fn has(u: u64, x: u8, y: u8) -> (r: bool)
        requires
            y * 8 + x < 64,
        ensures
            r == mask_has(u, y * 8 + x),
    {
        u & (1u64 << (y * 8 + x)) != 0u64
    }

    /// The pieces of one color.
    pub fn get_player_board(&self, c: Color) -> (r: &PartialBoard)
        ensures
            r == self.spec_color(c),
    {
        match c {
            Color::White => &self.white,
            Color::Black => &self.black,
        }
    }

    /// The pieces of one color, to be changed in place.
    pub fn get_player_board_mut(&mut self, c: Color) -> (r: &mut PartialBoard)
        ensures
            *r == *old(self).spec_color(c),
            *final(self) == (match c {
                Color::White => Board { white: *final(r), ..*old(self) },
                Color::Black => Board { black: *final(r), ..*old(self) },
            }),
    {
        match c {
            Color::White => &mut self.white,
            Color::Black => &mut self.black,
        }
    }

    /// The mask of one piece kind of one color, to be changed in place.
    pub fn get_pc_board_mut(&mut self, p: Piece, c: Color) -> (r: &mut u64)
        ensures
            *r == old(self).spec_get_pc_board(p, c),
            *final(self) == old(self).with_mask(p, c, *final(r)),
    {
        self.get_player_board_mut(c).get_pc_board_mut(p)
    }

    /// The mask of one piece kind of one color.
    #[verifier::when_used_as_spec(spec_get_pc_board)]
    pub fn get_pc_board(&self, p: Piece, c: Color) -> (r: u64)
        ensures
            r == self.spec_get_pc_board(p, c),
    {
        self.get_player_board(c).get_pc_board(p)
    }

    /// Whether any piece stands on file `x` of rank `y`.
    pub fn any_at(&self, x: u8, y: u8) -> (r: bool)
        requires
            y * 8 + x < 64,
        ensures
            r == mask_has(self.all(), y * 8 + x),
    {
        Board::has(self.all(), x, y)
    }

    /// Whether the square is free of pieces.
    pub fn empty_at(&self, p: &Case) -> (r: bool)
        requires
            p.valid(),
        ensures
            r == !mask_has(self.all(), p.0 as int),
    {
        let (x, y) = p.pos();
        !Board::has(self.all(), x, y)
    }

    /// Whether the square is free of pieces of the color opposite to `c`.
    pub fn color_or_empty_at(&self, c: Color, p: &Case) -> (r: bool)
        requires
            p.valid(),
        ensures
            r == !mask_has(self.color(c.rev()).all(), p.0 as int),
    {
        let (x, y) = p.pos();
        match c {
            Color::White => !Board::has(self.black.all(), x, y),
            Color::Black => !Board::has(self.white.all(), x, y),
        }
    }

    /// Whether a piece of color `c` stands on the square.
    pub fn color_at(&self, c: Color, p: &Case) -> (r: bool)
        requires
            p.valid(),
        ensures
            r == mask_has(self.color(c).all(), p.0 as int),
    {
        let (x, y) = p.pos();
        match c {
            Color::White => Board::has(self.white.all(), x, y),
            Color::Black => Board::has(self.black.all(), x, y),
        }
    }

    /// The piece on the square, and its color.
    pub fn at_pos(&self, m: &Case) -> (r: Option<(Piece, Color)>)
        requires
            m.valid(),
        ensures
            r == self.piece_at(m.0 as int),
    {
        let (x, y) = m.pos();
        self.at(x, y)
    }

    /// The board square by square: entry `rank * 8 + file` is the piece
    /// on that square.
    pub fn hydrate(&self) -> (res: [Option<(Piece, Color)>; 64])
        ensures
            res@ == self@,
    {
        let mut res = [None;64];
        for x in 0u8..8u8
            invariant
                forall|i: int| 0 <= i < 64 && i % 8 < x ==> res[i] == self.piece_at(i),
                forall|i: int| 0 <= i < 64 && i % 8 >= x ==> res[i] is None,
        {
            for y in 0u8..8u8
                invariant
                    0 <= x < 8,
                    forall|i: int|
                        0 <= i < 64 && (i % 8 < x || (i % 8 == x && i / 8 < y)) ==> res[i]
                            == self.piece_at(i),
                    forall|i: int|
                        0 <= i < 64 && !(i % 8 < x || (i % 8 == x && i / 8 < y)) ==> res[i] is None,
            {
                let i: usize = (y * 8 + x) as usize;
                match self.at(x, y) {
                    None => {},
                    Some((p, c)) => res[i] = Some((p, c)),
                }
            }
        }
        assert(res@ =~= self@);
        res
    }

    /// The drawing of the board: a line with the names of the files, then
    /// one line per rank, the top rank first, each with the rank's number
    /// counted from 0 and its eight squares between bars.
    pub fn to_text(&self) -> (s: String)
        ensures
            s@ == board_text(self@),
    {
        let b = self.hydrate();
        let mut s = String::new();
        s.append("  ");
        s.append("abcdefgh");
        s.append("\n");
        let ghost head = s@;
        assert(head =~= "  "@ + "abcdefgh"@ + "\n"@);
        for yy in 0u8..8u8
            invariant
                b@ == self@,
                head == "  "@ + "abcdefgh"@ + "\n"@,
                s@ == head + ranks_text(self@, yy as int),
        {
            let y = 7 - yy;
            let ghost before = s@;
            s.append(rank_label(y));
            s.append("|");
            let ghost start = s@;
            for x in 0u8..8u8
                invariant
                    y < 8,
                    b@ == self@,
                    s@ == start + rank_text(self@, y as int, x as int),
            {
                let i: usize = (y * 8 + x) as usize;
                s.append(glyph(b[i]));
                assert(s@ =~= start + rank_text(self@, y as int, x + 1));
            }
            s.append("|\n");
            assert(s@ =~= head + ranks_text(self@, yy + 1));
        }
        s
    }

    /// The piece on file `x` of rank `y`, and its color.
    pub fn at(&self, x: u8, y: u8) -> (r: Option<(Piece, Color)>)
        requires
            y * 8 + x < 64,
        ensures
            r == self.piece_at(y * 8 + x),
    {
        match self.white.at(x, y) {
            Some(p) => Some((p, Color::White)),
            None => match self.black.at(x, y) {
                Some(p) => Some((p, Color::Black)),
                None => None,
            },
        }
    }
}

/// The empty board holds no piece, and so no square twice.
pub proof fn lemma_empty_board()
    ensures
        Board::spec_empty().wf(),
        forall|sq: int| #[trigger] Board::spec_empty().piece_at(sq) is None,
{
    let r = Board::spec_empty();
    assert forall|sq: int| #[trigger] r.piece_at(sq) is None by {
        lemma_empty_mask(sq);
    }
    assert forall|sq: int, p: Piece, c: Color| #[trigger]
        mask_has(r.spec_get_pc_board(p, c), sq) implies r.piece_at(sq) == Some((p, c)) by {
        lemma_empty_mask(sq);
    }
}

/// The piece of the standard opening layout on `sq`.
pub open spec fn start_piece_at(sq: int) -> Option<(Piece, Color)> {
    if 0 <= sq < 8 {
        Some((back_rank_piece(sq % 8), Color::White))
    } else if 8 <= sq < 16 {
        Some((Piece::Pawn, Color::White))
    } else if 48 <= sq < 56 {
        Some((Piece::Pawn, Color::Black))
    } else if 56 <= sq < 64 {
        Some((back_rank_piece(sq % 8), Color::Black))
    } else {
        None
    }
}

/// The piece that starts on `file` of its color's back rank.
pub open spec fn back_rank_piece(file: int) -> Piece {
    if file == 0 || file == 7 {
        Piece::Rook
    } else if file == 1 || file == 6 {
        Piece::Knight
    } else if file == 2 || file == 5 {
        Piece::Bishop
    } else if file == 3 {
        Piece::Queen
    } else {
        Piece::King
    }
}

/// The masks of the standard opening layout hold one piece per square, as
/// `start_piece_at` lists them.
pub proof fn lemma_start_layout()
    ensures
        Board::spec_new_start().wf(),
        forall|sq: int| #[trigger] Board::spec_new_start().piece_at(sq) == start_piece_at(sq),
{
    let b = Board::spec_new_start();
    assert forall|sq: int| b.piece_at(sq) == start_piece_at(sq) by {
        lemma_start_masks(sq);
    }
    assert forall|sq: int, p: Piece, c: Color| #[trigger]
        mask_has(b.spec_get_pc_board(p, c), sq) implies b.piece_at(sq) == Some((p, c)) by {
        lemma_start_masks(sq);
    }
}

/// On a board where no square holds two pieces, taking a piece off its
/// square empties that square and leaves the others as they are.
pub proof fn lemma_removed(b: Board, p: Piece, c: Color, s: int)
    requires
        b.wf(),
        0 <= s < 64,
        b.piece_at(s) == Some((p, c)),
    ensures
        b.removed(p, c, s).wf(),
        forall|sq: int|
            #[trigger] b.removed(p, c, s).piece_at(sq) == (if sq == s {
                None
            } else {
                b.piece_at(sq)
            }),
{
    let r = b.removed(p, c, s);
    let mask = b.spec_get_pc_board(p, c);
    assert forall|sq: int| mask_has(mask & !square_bit(s), sq) == (mask_has(mask, sq) && sq != s) by {
        lemma_mask_remove(mask, s, sq);
    }
    assert forall|sq: int, q: Piece, d: Color|
        mask_has(r.spec_get_pc_board(q, d), sq) == (mask_has(b.spec_get_pc_board(q, d), sq) && !(sq
            == s && q == p && d == c)) by {
        if mask_has(b.spec_get_pc_board(q, d), s) {
            assert(q == p && d == c);
        }
    }
    lemma_piece_at_by_masks(b, r, s, None);
}

/// On a board where no square holds two pieces, putting a piece on an empty
/// square fills that square and leaves the others as they are.
pub proof fn lemma_placed(b: Board, p: Piece, c: Color, s: int)
    requires
        b.wf(),
        0 <= s < 64,
        b.piece_at(s) is None,
    ensures
        b.placed(p, c, s).wf(),
        forall|sq: int|
            #[trigger] b.placed(p, c, s).piece_at(sq) == (if sq == s {
                Some((p, c))
            } else {
                b.piece_at(sq)
            }),
{
    let r = b.placed(p, c, s);
    let mask = b.spec_get_pc_board(p, c);
    assert forall|sq: int| mask_has(mask | square_bit(s), sq) == (mask_has(mask, sq) || sq == s) by {
        lemma_mask_insert(mask, s, sq);
    }
    assert forall|sq: int, q: Piece, d: Color|
        mask_has(r.spec_get_pc_board(q, d), sq) == (mask_has(b.spec_get_pc_board(q, d), sq) || (sq
            == s && q == p && d == c)) by {
        if mask_has(b.spec_get_pc_board(q, d), s) {
            assert(b.piece_at(s) == Some((q, d)));
        }
    }
    lemma_piece_at_by_masks(b, r, s, Some((p, c)));
}

/// A board whose masks agree with those of a board without doubly held
/// squares, but for one square that holds `now` alone, is itself without
/// doubly held squares.
proof fn lemma_piece_at_by_masks(b: Board, r: Board, s: int, now: Option<(Piece, Color)>)
    requires
        b.wf(),
        forall|sq: int, q: Piece, d: Color|
            mask_has(r.spec_get_pc_board(q, d), sq) == (if sq == s {
                0 <= s < 64 && now == Some((q, d))
            } else {
                mask_has(b.spec_get_pc_board(q, d), sq)
            }),
    ensures
        r.wf(),
        forall|sq: int|
            r.piece_at(sq) == (if sq == s {
                if 0 <= s < 64 {
                    now
                } else {
                    None
                }
            } else {
                b.piece_at(sq)
            }),
{
    assert forall|sq: int|
        r.piece_at(sq) == (if sq == s {
            if 0 <= s < 64 {
                now
            } else {
                None
            }
        } else {
            b.piece_at(sq)
        }) by {
        lemma_mask_names(b);
        lemma_mask_names(r);
        let here = sq == s && 0 <= s < 64;
        assert(r.white.piece_at(sq) == (if sq == s {
            match now {
                Some((q, Color::White)) if here => Some(q),
                _ => None,
            }
        } else {
            b.white.piece_at(sq)
        }));
        assert(r.black.piece_at(sq) == (if sq == s {
            match now {
                Some((q, Color::Black)) if here => Some(q),
                _ => None,
            }
        } else {
            b.black.piece_at(sq)
        }));
    }
    assert forall|sq: int, q: Piece, d: Color| #[trigger]
        mask_has(r.spec_get_pc_board(q, d), sq) implies r.piece_at(sq) == Some((q, d)) by {
        lemma_mask_names(b);
        lemma_mask_names(r);
    }
}

/// What `piece_at` finds on a square is in the mask it names, and a square
/// where it finds nothing is in no mask.
pub proof fn lemma_piece_at_masks(b: Board, sq: int)
    ensures
        b.piece_at(sq) matches Some((p, c)) ==> mask_has(b.spec_get_pc_board(p, c), sq),
        b.piece_at(sq) is None ==> forall|p: Piece, c: Color|
            !mask_has(#[trigger] b.spec_get_pc_board(p, c), sq),
        !(0 <= sq < 64) ==> b.piece_at(sq) is None,
{
}

/// The twelve masks of a board, by piece kind and color.
proof fn lemma_mask_names(b: Board)
    ensures
        b.spec_get_pc_board(Piece::Pawn, Color::White) == b.white.pawns,
        b.spec_get_pc_board(Piece::Knight, Color::White) == b.white.knights,
        b.spec_get_pc_board(Piece::Bishop, Color::White) == b.white.bishops,
        b.spec_get_pc_board(Piece::Rook, Color::White) == b.white.rooks,
        b.spec_get_pc_board(Piece::Queen, Color::White) == b.white.queens,
        b.spec_get_pc_board(Piece::King, Color::White) == b.white.king,
        b.spec_get_pc_board(Piece::Pawn, Color::Black) == b.black.pawns,
        b.spec_get_pc_board(Piece::Knight, Color::Black) == b.black.knights,
        b.spec_get_pc_board(Piece::Bishop, Color::Black) == b.black.bishops,
        b.spec_get_pc_board(Piece::Rook, Color::Black) == b.black.rooks,
        b.spec_get_pc_board(Piece::Queen, Color::Black) == b.black.queens,
        b.spec_get_pc_board(Piece::King, Color::Black) == b.black.king,
{
}

/// The law of `Board::apply`, over squares: on a board where no square
/// holds two pieces, a move from an occupied square gives a board of the
/// same kind, on which the destination holds the mover (or the piece it is
/// promoted to), the origin is empty unless it is the destination, and every
/// other square is as before.
pub proof fn lemma_apply(b: Board, m: GenMove)
    requires
        b.wf(),
        m.valid(),
        b.piece_at(m.from.0 as int) is Some,
    ensures
        b.spec_apply(m) matches Some(r) && {
            &&& r.wf()
            &&& r.piece_at(m.to.0 as int) == Some(
                (
                    match m.promotion {
                        Some(q) => q,
                        None => b.piece_at(m.from.0 as int).unwrap().0,
                    },
                    b.piece_at(m.from.0 as int).unwrap().1,
                ),
            )
            &&& m.from != m.to ==> r.piece_at(m.from.0 as int) is None
            &&& forall|sq: int|
                sq != m.from.0 && sq != m.to.0 ==> #[trigger] r.piece_at(sq) == b.piece_at(sq)
        },
{
    let from = m.from.0 as int;
    let to = m.to.0 as int;
    let (p, c) = b.piece_at(from).unwrap();
    lemma_removed(b, p, c, from);
    let lifted = b.removed(p, c, from);
    let cleared = lifted.cleared(to);
    match lifted.piece_at(to) {
        Some((cp, cc)) => {
            lemma_removed(lifted, cp, cc, to);
        },
        None => {},
    }
    let target = match m.promotion {
        Some(q) => q,
        None => p,
    };
    lemma_placed(cleared, target, c, to);
}

/// On a board where no square holds two pieces, White's and Black's
/// occupancy masks have no square in common.
pub proof fn lemma_colors_disjoint(b: Board)
    requires
        b.wf(),
    ensures
        b.white.all() & b.black.all() == 0,
{
    assert forall|sq: int| 0 <= sq < 64 implies !mask_has(b.white.all() & b.black.all(), sq) by {
        lemma_mask_union(b.white.all(), b.black.all(), sq);
        lemma_side_occupancy(b.white, sq);
        lemma_side_occupancy(b.black, sq);
        lemma_piece_at_masks(b, sq);
        if mask_has(b.white.all(), sq) && mask_has(b.black.all(), sq) {
            let q = b.black.piece_at(sq).unwrap();
            assert(mask_has(b.spec_get_pc_board(q, Color::Black), sq));
        }
    }
    lemma_no_square_is_empty(b.white.all() & b.black.all());
}

/// On a board where no square holds two pieces, neither side holds a
/// square twice.
pub proof fn lemma_sides_wf(b: Board)
    requires
        b.wf(),
    ensures
        b.white.wf(),
        b.black.wf(),
{
    assert forall|sq: int, p: Piece| #[trigger]
        mask_has(b.white.spec_get_pc_board(p), sq) implies b.white.piece_at(sq) == Some(p) by {
        assert(mask_has(b.spec_get_pc_board(p, Color::White), sq));
    }
    assert forall|sq: int, p: Piece| #[trigger]
        mask_has(b.black.spec_get_pc_board(p), sq) implies b.black.piece_at(sq) == Some(p) by {
        assert(mask_has(b.spec_get_pc_board(p, Color::Black), sq));
    }
}

/// On a board where no square holds two pieces, two different masks have
/// no square in common.
pub proof fn lemma_masks_disjoint(b: Board, p: Piece, c: Color, q: Piece, d: Color)
    requires
        b.wf(),
        p != q || c != d,
    ensures
        b.spec_get_pc_board(p, c) & b.spec_get_pc_board(q, d) == 0,
{
    let both = b.spec_get_pc_board(p, c) & b.spec_get_pc_board(q, d);
    assert forall|sq: int| 0 <= sq < 64 implies !mask_has(both, sq) by {
        lemma_mask_union(b.spec_get_pc_board(p, c), b.spec_get_pc_board(q, d), sq);
    }
    lemma_no_square_is_empty(both);
}

/// A board whose twelve masks are pairwise disjoint holds no square twice.
pub proof fn lemma_wf_by_disjoint_masks(b: Board)
    requires
        forall|p: Piece, c: Color, q: Piece, d: Color|
            p != q || c != d ==> #[trigger] b.spec_get_pc_board(p, c) & #[trigger] b.spec_get_pc_board(
                q,
                d,
            ) == 0,
    ensures
        b.wf(),
{
    assert forall|sq: int, p: Piece, c: Color| #[trigger]
        mask_has(b.spec_get_pc_board(p, c), sq) implies b.piece_at(sq) == Some((p, c)) by {
        lemma_piece_at_masks(b, sq);
        let (q, d) = b.piece_at(sq).unwrap();
        if p != q || c != d {
            lemma_mask_union(b.spec_get_pc_board(p, c), b.spec_get_pc_board(q, d), sq);
            lemma_empty_mask(sq);
        }
    }
}

/// Two boards on which no square holds two pieces, and which hold the
/// same piece on every square, are the same board.
pub proof fn lemma_view_determines_board(a: Board, b: Board)
    requires
        a.wf(),
        b.wf(),
        a@ == b@,
    ensures
        a == b,
{
    assert forall|p: Piece, c: Color|
        #[trigger] a.spec_get_pc_board(p, c) == b.spec_get_pc_board(p, c) by {
        assert forall|sq: int| 0 <= sq < 64 implies mask_has(a.spec_get_pc_board(p, c), sq)
            == mask_has(b.spec_get_pc_board(p, c), sq) by {
            assert(a@[sq] == a.piece_at(sq));
            assert(b@[sq] == b.piece_at(sq));
            lemma_piece_at_masks(a, sq);
            lemma_piece_at_masks(b, sq);
        }
        lemma_mask_ext(a.spec_get_pc_board(p, c), b.spec_get_pc_board(p, c));
    }
    lemma_mask_names(a);
    lemma_mask_names(b);
}

/// Playing a move on a board where no square holds two pieces gives a
/// board on which White's and Black's occupancy masks have no square in
/// common.
pub proof fn lemma_apply_keeps_colors_apart(b: Board, m: GenMove)
    requires
        b.wf(),
        m.valid(),
    ensures
        b.spec_apply(m) matches Some(after) ==> after.wf() && after.white.all() & after.black.all()
            == 0,
{
    if b.piece_at(m.from.0 as int) is Some {
        lemma_apply(b, m);
        lemma_colors_disjoint(b.spec_apply(m).unwrap());
    }
}

} // verus!
