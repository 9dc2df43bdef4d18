//! Squares and moves: the squares of the board by index, moves with their
//! flags, moves as text, and the walk over the squares of a mask.

use crate::bits::{
    lemma_empty_mask, lemma_mask_shr, lemma_trailing_zeros, mask_has, mask_squares, square_bit,
};
use crate::board::Piece;
use vstd::prelude::*;
use vstd::std_specs::iter::IteratorSpec;

verus! {

/// The bit of the flag for a capture in passing.
pub const FLAG_EN_PASSANT: u32 = 0b0001;

/// The bit of the flag for castling.
pub const FLAG_CASTLE: u32 = 0b0010;

/// The bit of the flag for a pawn's double step.
pub const FLAG_DOUBLE_STEP: u32 = 0b0100;

/// The bit of the flag for a capture.
pub const FLAG_CAPTURE: u32 = 0b1000;

/// What a move claims to be: a set of the four bits above. The flags carry
/// information only; nothing in the rules reads them, and the generator
/// sets none but the one for a capture.
#[derive(Clone, Copy, Debug, PartialEq, Eq)]
pub struct Flags {
    pub bits: u32,
}

impl Flags {
    /// No flag.
    pub open spec fn spec_none() -> Flags {
        Flags { bits: 0 }
    }

    /// The flag for a capture alone.
    pub open spec fn spec_capture() -> Flags {
        Flags { bits: FLAG_CAPTURE }
    }

    /// No flag.
    #[verifier::when_used_as_spec(spec_none)]
    pub fn none() -> (f: Flags)
        ensures
            f == Flags::spec_none(),
    {
        Flags { bits: 0 }
    }

    /// The flag for a capture in passing alone.
    pub fn en_passant() -> (f: Flags)
        ensures
            f.bits == FLAG_EN_PASSANT,
    {
        Flags { bits: FLAG_EN_PASSANT }
    }

    /// The flag for castling alone.
    pub fn castle() -> (f: Flags)
        ensures
            f.bits == FLAG_CASTLE,
    {
        Flags { bits: FLAG_CASTLE }
    }

    /// The flag for a pawn's double step alone.
    pub fn double_step() -> (f: Flags)
        ensures
            f.bits == FLAG_DOUBLE_STEP,
    {
        Flags { bits: FLAG_DOUBLE_STEP }
    }

    /// The flag for a capture alone.
    #[verifier::when_used_as_spec(spec_capture)]
    pub fn capture() -> (f: Flags)
        ensures
            f == Flags::spec_capture(),
    {
        Flags { bits: FLAG_CAPTURE }
    }

    /// Whether every flag of `other` is among these.
    pub fn contains(&self, other: Flags) -> (r: bool)
        ensures
            r == (self.bits & other.bits == other.bits),
    {
        self.bits & other.bits == other.bits
    }
}

/// The rank of square `sq`.
pub open spec fn sq_row(sq: int) -> int {
    sq / 8
}

/// The file of square `sq`.
pub open spec fn sq_col(sq: int) -> int {
    sq % 8
}

/// The square on rank `row` and file `col`.
pub open spec fn sq_at(row: int, col: int) -> int {
    row * 8 + col
}

/// Rank and file lie on the board.
pub open spec fn on_board(row: int, col: int) -> bool {
    0 <= row < 8 && 0 <= col < 8
}

/// What a file letter and a rank digit name: a square for `a`..`h` and
/// `1`..`8`, nothing otherwise.
pub open spec fn square_named(file: char, rank: char) -> Option<Case> {
    if 'a' <= file <= 'h' && '1' <= rank <= '8' {
        Some(Case(((rank as u32 - '1' as u32) * 8 + (file as u32 - 'a' as u32)) as u8))
    } else {
        None
    }
}

/// A square of the board, by its index `rank * 8 + file`.
#[derive(Clone, Copy, Debug, PartialEq, Eq)]
pub struct Case(pub u8);

impl Case {
    /// The index names one of the 64 squares.
    pub open spec fn valid(self) -> bool {
        self.0 < 64
    }

    /// The rank of the square.
    pub open spec fn spec_row(&self) -> u8 {
        self.0 / 8
    }

    /// The file of the square.
    pub open spec fn spec_col(&self) -> u8 {
        self.0 % 8
    }

    /// The square `row` ranks up and `col` files right of this one, if it is
    /// on the board.
    pub open spec fn spec_try_offset(&self, row: i8, col: i8) -> Option<Case> {
        if on_board(self.0 / 8 + row, self.0 % 8 + col) {
            Some(Case(sq_at(self.0 / 8 + row, self.0 % 8 + col) as u8))
        } else {
            None
        }
    }

    /// The square on rank `row` and file `col`.
    pub fn new(row: u8, col: u8) -> (c: Case)
        requires
            row * 8 + col <= u8::MAX,
        ensures
            c.0 == row * 8 + col,
    {
        Case(row * 8u8 + col)
    }

    /// Reads a square from its two-letter name, such as `e4`: takes one
    /// item from the iterator, and a second one if there was a first.
    pub fn parse<I>(it: &mut I) -> (r: Option<Case>) where I: Iterator<Item = char>
        requires
            (*old(it)).obeys_prophetic_iter_laws(),
        ensures
            (*final(it)).obeys_prophetic_iter_laws(),
            (*final(it)).decrease() is Some == (*old(it)).decrease() is Some,
            (*old(it)).remaining().len() >= 2 ==> {
                &&& r == square_named((*old(it)).remaining()[0], (*old(it)).remaining()[1])
                &&& (*final(it)).remaining() == (*old(it)).remaining().skip(2)
            },
            (*old(it)).remaining().len() < 2 ==> {
                &&& r is None
                &&& (*final(it)).remaining().len() == 0
            },
    {
        let ghost rem = (*it).remaining();
        let fcx = match it.next() {
            Some(c) => c,
            None => {
                return None;
            },
        };
        let fcy = match it.next() {
            Some(c) => c,
            None => {
                return None;
            },
        };
        assert((*it).remaining() == rem.skip(2));
        square_of(fcx, fcy)
    }

    /// The square `row` ranks up and `col` files right of this one, if it
    /// is on the board.
    pub fn try_offset(&self, row: i8, col: i8) -> (r: Option<Self>)
        ensures
            r == self.spec_try_offset(row, col),
    {
        let nrow: i16 = self.row() as i16 + row as i16;
        let ncol: i16 = self.col() as i16 + col as i16;
        if nrow >= 0 && nrow < 8 && ncol >= 0 && ncol < 8 {
            Some(Case::new(nrow as u8, ncol as u8))
        } else {
            None
        }
    }

    /// The square `row` ranks up and `col` files right of this one, which
    /// is on the board.
    pub fn offset(&self, row: i8, col: i8) -> (r: Self)
        requires
            on_board(self.0 / 8 + row, self.0 % 8 + col),
        ensures
            Some(r) == self.spec_try_offset(row, col),
    {
        Case::new(
            (self.row() as i16 + row as i16) as u8,
            (self.col() as i16 + col as i16) as u8,
        )
    }

    /// The rank of the square.
    #[verifier::when_used_as_spec(spec_row)]
    pub fn row(&self) -> (r: u8)
        ensures
            r == self.spec_row(),
    {
        self.0 / 8
    }

    /// The file of the square.
    #[verifier::when_used_as_spec(spec_col)]
    pub fn col(&self) -> (r: u8)
        ensures
            r == self.spec_col(),
    {
        self.0 % 8
    }

    /// File and rank of the square, in this order.
    pub fn pos(&self) -> (r: (u8, u8))
        ensures
            r == (self.spec_col(), self.spec_row()),
            r.1 * 8 + r.0 == self.0,
    {
        (self.0 % 8, self.0 / 8)
    }

    /// The mask that holds this square alone.
    pub fn board(&self) -> (r: u64)
        requires
            self.valid(),
        ensures
            r == square_bit(self.0 as int),
    {
        1u64 << self.0
    }

    /// The name of the square: the letter of its file and the number of
    /// its rank, such as `e4`.
    pub fn to_text(&self) -> (s: String)
        ensures
            s@ == square_name(self.0 as int),
    {
        let mut s = String::new();
        s.append(file_name(self.col()));
        let n = self.row() + 1;
        if n >= 10 {
            s.append(digit_name(n / 10));
        }
        s.append(digit_name(n % 10));
        assert(s@ =~= square_name(self.0 as int));
        s
    }
}

/// The letter of file `col`: `a` for the first file, up to `h` for the
/// eighth.
pub open spec fn file_letter(col: int) -> Seq<char> {
    if col == 0 {
        "a"@
    } else if col == 1 {
        "b"@
    } else if col == 2 {
        "c"@
    } else if col == 3 {
        "d"@
    } else if col == 4 {
        "e"@
    } else if col == 5 {
        "f"@
    } else if col == 6 {
        "g"@
    } else {
        "h"@
    }
}

fn file_name(col: u8) -> (r: &'static str)
    requires
        col < 8,
    ensures
        r@ == file_letter(col as int),
{
    if col == 0 {
        "a"
    } else if col == 1 {
        "b"
    } else if col == 2 {
        "c"
    } else if col == 3 {
        "d"
    } else if col == 4 {
        "e"
    } else if col == 5 {
        "f"
    } else if col == 6 {
        "g"
    } else {
        "h"
    }
}

/// The decimal digit `d`.
pub open spec fn digit_text(d: int) -> Seq<char> {
    if d == 0 {
        "0"@
    } else if d == 1 {
        "1"@
    } else if d == 2 {
        "2"@
    } else if d == 3 {
        "3"@
    } else if d == 4 {
        "4"@
    } else if d == 5 {
        "5"@
    } else if d == 6 {
        "6"@
    } else if d == 7 {
        "7"@
    } else if d == 8 {
        "8"@
    } else {
        "9"@
    }
}

fn digit_name(d: u8) -> (r: &'static str)
    requires
        d < 10,
    ensures
        r@ == digit_text(d as int),
{
    if d == 0 {
        "0"
    } else if d == 1 {
        "1"
    } else if d == 2 {
        "2"
    } else if d == 3 {
        "3"
    } else if d == 4 {
        "4"
    } else if d == 5 {
        "5"
    } else if d == 6 {
        "6"
    } else if d == 7 {
        "7"
    } else if d == 8 {
        "8"
    } else {
        "9"
    }
}

/// The number of rank `row`, counted from 1, in decimal digits.
pub open spec fn rank_number(row: int) -> Seq<char> {
    if row + 1 < 10 {
        digit_text(row + 1)
    } else {
        digit_text((row + 1) / 10) + digit_text((row + 1) % 10)
    }
}

/// The name of square `sq`: the letter of its file and the number of its
/// rank.
pub open spec fn square_name(sq: int) -> Seq<char> {
    file_letter(sq % 8) + rank_number(sq / 8)
}

/// The name of a square of the board has two characters, and names the
/// square.
pub proof fn lemma_square_name_names(sq: int)
    requires
        0 <= sq < 64,
    ensures
        square_name(sq).len() == 2,
        square_named(square_name(sq)[0], square_name(sq)[1]) == Some(Case(sq as u8)),
{
    reveal_strlit("a");
    reveal_strlit("b");
    reveal_strlit("c");
    reveal_strlit("d");
    reveal_strlit("e");
    reveal_strlit("f");
    reveal_strlit("g");
    reveal_strlit("h");
    reveal_strlit("1");
    reveal_strlit("2");
    reveal_strlit("3");
    reveal_strlit("4");
    reveal_strlit("5");
    reveal_strlit("6");
    reveal_strlit("7");
    reveal_strlit("8");
}

impl From<u8> for Case {
    fn from(index: u8) -> (c: Case) {
        Case(index)
    }
}

impl vstd::std_specs::convert::FromSpecImpl<u8> for Case {
    open spec fn obeys_from_spec() -> bool {
        true
    }

    open spec fn from_spec(index: u8) -> Case {
        Case(index)
    }
}

/// A proposed move: from one square to another, with its flags and, for a
/// promotion, the piece that arrives.
#[derive(Clone, Copy, Debug, PartialEq, Eq)]
pub struct GenMove {
    pub from: Case,
    pub to: Case,
    pub flags: Flags,
    pub promotion: Option<Piece>,
}

impl GenMove {
    /// Both squares of the move lie on the board.
    pub open spec fn valid(self) -> bool {
        self.from.valid() && self.to.valid()
    }

    /// A move without promotion.
    pub fn new(from: Case, to: Case, flags: Flags) -> (m: Self)
        ensures
            m == (GenMove { from, to, flags, promotion: None }),
    {
        GenMove { from, to, flags, promotion: None }
    }

    /// The move as text: the name of its origin, then the name of its
    /// destination, such as `e2e4`.
    pub fn to_text(&self) -> (s: String)
        ensures
            s@ == square_name(self.from.0 as int) + square_name(self.to.0 as int),
    {
        let mut s = self.from.to_text();
        let to = self.to.to_text();
        s.append(to.as_str());
        s
    }
}

/// The first index from `i` on at which the text holds no space; the
/// text's length, or `i` beyond it, where there is none.
pub open spec fn skip_spaces(text: Seq<char>, i: int) -> int
    decreases text.len() - i,
{
    if 0 <= i < text.len() && text[i] == ' ' {
        skip_spaces(text, i + 1)
    } else {
        i
    }
}

/// The piece that a letter behind a move names as the one promoted to.
pub open spec fn promotion_letter(ch: char) -> Option<Piece> {
    if ch == 'k' {
        Some(Piece::King)
    } else if ch == 'q' {
        Some(Piece::Queen)
    } else if ch == 'r' {
        Some(Piece::Rook)
    } else if ch == 'b' {
        Some(Piece::Bishop)
    } else if ch == 'n' {
        Some(Piece::Knight)
    } else if ch == 'p' {
        Some(Piece::Pawn)
    } else {
        None
    }
}

/// The move that the text holds from `start` on, and the index behind it:
/// spaces are passed over, then come the names of the two squares, and a
/// promotion letter behind them belongs to the move too. The move carries
/// no flag and does not record the letter. None where the two names are
/// not there.
pub open spec fn spec_parse_move(text: Seq<char>, start: int) -> Option<(GenMove, int)> {
    let i = skip_spaces(text, start);
    if i + 4 > text.len() {
        None
    } else {
        match (square_named(text[i], text[i + 1]), square_named(text[i + 2], text[i + 3])) {
            (Some(from), Some(to)) => Some(
                (
                    GenMove { from, to, flags: Flags::none(), promotion: None },
                    if i + 4 < text.len() && promotion_letter(text[i + 4]) is Some {
                        i + 5
                    } else {
                        i + 4
                    },
                ),
            ),
            _ => None,
        }
    }
}

/// Passing over spaces goes forward, and not beyond the end of the text.
pub proof fn lemma_skip_spaces(text: Seq<char>, i: int)
    ensures
        i <= skip_spaces(text, i),
        i <= text.len() ==> skip_spaces(text, i) <= text.len(),
    decreases text.len() - i,
{
    if 0 <= i < text.len() && text[i] == ' ' {
        lemma_skip_spaces(text, i + 1);
    }
}

/// A move that is read ends behind the index at which the reading
/// started, and within the text; its squares lie on the board.
pub proof fn lemma_parse_move_advances(text: Seq<char>, start: int)
    ensures
        spec_parse_move(text, start) matches Some((m, next)) ==> start < next <= text.len()
            && m.valid(),
{
    lemma_skip_spaces(text, start);
}

fn square_of(file: char, rank: char) -> (r: Option<Case>)
    ensures
        r == square_named(file, rank),
        r matches Some(c) ==> c.valid(),
{
    if 'a' <= file && file <= 'h' && '1' <= rank && rank <= '8' {
        let fx = file as u32 - 'a' as u32;
        let fy = rank as u32 - '1' as u32;
        Some(Case::new(fy as u8, fx as u8))
    } else {
        None
    }
}

fn promotion_of(ch: char) -> (r: Option<Piece>)
    ensures
        r == promotion_letter(ch),
{
    match ch {
        'k' => Some(Piece::King),
        'q' => Some(Piece::Queen),
        'r' => Some(Piece::Rook),
        'b' => Some(Piece::Bishop),
        'n' => Some(Piece::Knight),
        'p' => Some(Piece::Pawn),
        _ => None,
    }
}

/// Reads one move of a list of moves such as `e2e4 e7e5`, from index
/// `start` of the text on.
pub fn parse_move(text: &Vec<char>, start: usize) -> (r: Option<(GenMove, usize)>)
    ensures
        match r {
            Some((m, next)) => {
                &&& spec_parse_move(text@, start as int) == Some((m, next as int))
                &&& start < next <= text@.len()
                &&& m.valid()
            },
            None => spec_parse_move(text@, start as int) is None,
        },
{
    let mut i = start;
    while i < text.len() && text[i] == ' '
        invariant
            start <= i,
            skip_spaces(text@, start as int) == skip_spaces(text@, i as int),
        decreases text.len() - i,
    {
        i += 1;
    }
    if i > text.len() || text.len() - i < 4 {
        return None;
    }
    if let Some(from) = square_of(text[i], text[i + 1]) {
        if let Some(to) = square_of(text[i + 2], text[i + 3]) {
            let mut next = i + 4;
            if next < text.len() {
                let promotion = promotion_of(text[next]);
                if promotion.is_some() {
                    next += 1;
                }
            }
            return Some((GenMove::new(from, to, Flags::none()), next));
        }
    }
    None
}

/// Walks the squares of a mask from the lowest to the highest.
pub struct CaseIterator {
    bitboard: u64,
    last: i8,
}

impl CaseIterator {
    #[verifier::type_invariant]
    spec fn inv(&self) -> bool {
        &&& -1 <= self.last <= 64
        &&& self.last < 64 ==> forall|j: int| 63 - self.last <= j < 64 ==> !mask_has(self.bitboard, j)
    }

    /// The squares that are still to come.
    pub closed spec fn squares(&self) -> Set<int> {
        Set::new(|sq: int| self.last < sq < 64 && mask_has(self.bitboard, sq - self.last - 1))
    }

    /// An iterator over the squares of `bitboard`.
    pub fn new(bitboard: u64) -> (r: Self)
        ensures
            r.squares() == mask_squares(bitboard),
    {
        let r = Self { bitboard, last: -1 };
        assert(r.squares() =~= mask_squares(bitboard));
        r
    }

    /// Hands out the lowest square that is still to come and drops it;
    /// `None` once no square is left.
    pub fn next(&mut self) -> (r: Option<Case>)
        ensures
            match r {
                Some(c) => {
                    &&& c.valid()
                    &&& old(self).squares().contains(c.0 as int)
                    &&& forall|sq: int| old(self).squares().contains(sq) ==> c.0 <= sq
                    &&& final(self).squares() == old(self).squares().remove(c.0 as int)
                },
                None => {
                    &&& old(self).squares() == Set::<int>::empty()
                    &&& final(self).squares() == Set::<int>::empty()
                },
            },
    {
        proof {
            use_type_invariant(&*self);
        }
        let ghost before = *self;
        if self.last >= 64 {
            assert(self.squares() =~= Set::<int>::empty());
            None
        } else {
            let t = self.bitboard.trailing_zeros();
            proof {
                lemma_trailing_zeros(self.bitboard);
            }
            if t == 64 {
                self.last = 64;
                proof {
                    assert forall|sq: int| !before.squares().contains(sq) by {
                        lemma_empty_mask(sq - before.last - 1);
                    }
                    assert(before.squares() =~= Set::<int>::empty());
                    assert(self.squares() =~= Set::<int>::empty());
                }
                None
            } else if t == 63 {
                self.last = 64;
                proof {
                    assert(before.last == -1);
                    assert(self.squares() =~= before.squares().remove(63));
                }
                Some(Case(63))
            } else {
                let bitboard = self.bitboard >> (t + 1);
                let last = self.last + (t as i8 + 1);
                proof {
                    assert forall|j: int|
                        mask_has(bitboard, j) == (0 <= j && j + t + 1 < 64 && mask_has(
                            before.bitboard,
                            j + t + 1,
                        )) by {
                        lemma_mask_shr(before.bitboard, t + 1, j);
                    }
                }
                *self = CaseIterator { bitboard, last };
                assert(self.squares() =~= before.squares().remove(last as int));
                Some(Case(last as u8))
            }
        }
    }
}

} // verus!
