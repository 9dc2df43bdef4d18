//! Boards as text: the drawing of a board, board texts with one line per
//! rank, and the placement field of FEN texts.

use crate::bits::mask_has;
use crate::board::{lemma_empty_board, lemma_placed, Board, Color, Piece};
use vstd::prelude::*;
use vstd::std_specs::iter::IteratorSpec;

verus! {

/// The sign that stands for a square in the drawing of a board: a blank
/// for an empty square, and for a piece its chess symbol, outlined for
/// Black and filled for White.
pub open spec fn glyph_text(square: Option<(Piece, Color)>) -> Seq<char> {
    match square {
        None => " "@,
        Some((Piece::Pawn, Color::Black)) => "\u{2659}"@,
        Some((Piece::Knight, Color::Black)) => "\u{2658}"@,
        Some((Piece::Bishop, Color::Black)) => "\u{2657}"@,
        Some((Piece::Rook, Color::Black)) => "\u{2656}"@,
        Some((Piece::Queen, Color::Black)) => "\u{2655}"@,
        Some((Piece::King, Color::Black)) => "\u{2654}"@,
        Some((Piece::Pawn, Color::White)) => "\u{265F}"@,
        Some((Piece::Knight, Color::White)) => "\u{265E}"@,
        Some((Piece::Bishop, Color::White)) => "\u{265D}"@,
        Some((Piece::Rook, Color::White)) => "\u{265C}"@,
        Some((Piece::Queen, Color::White)) => "\u{265B}"@,
        Some((Piece::King, Color::White)) => "\u{265A}"@,
    }
}

pub(crate) fn glyph(square: Option<(Piece, Color)>) -> (r: &'static str)
    ensures
        r@ == glyph_text(square),
{
    match square {
        None => " ",
        Some((Piece::Pawn, Color::Black)) => "\u{2659}",
        Some((Piece::Knight, Color::Black)) => "\u{2658}",
        Some((Piece::Bishop, Color::Black)) => "\u{2657}",
        Some((Piece::Rook, Color::Black)) => "\u{2656}",
        Some((Piece::Queen, Color::Black)) => "\u{2655}",
        Some((Piece::King, Color::Black)) => "\u{2654}",
        Some((Piece::Pawn, Color::White)) => "\u{265F}",
        Some((Piece::Knight, Color::White)) => "\u{265E}",
        Some((Piece::Bishop, Color::White)) => "\u{265D}",
        Some((Piece::Rook, Color::White)) => "\u{265C}",
        Some((Piece::Queen, Color::White)) => "\u{265B}",
        Some((Piece::King, Color::White)) => "\u{265A}",
    }
}

/// The number of rank `y` in the drawing of a board, counted from 0.
pub open spec fn rank_label_text(y: int) -> Seq<char> {
    if y == 0 {
        "0"@
    } else if y == 1 {
        "1"@
    } else if y == 2 {
        "2"@
    } else if y == 3 {
        "3"@
    } else if y == 4 {
        "4"@
    } else if y == 5 {
        "5"@
    } else if y == 6 {
        "6"@
    } else {
        "7"@
    }
}

pub(crate) fn rank_label(y: u8) -> (r: &'static str)
    requires
        y < 8,
    ensures
        r@ == rank_label_text(y as int),
{
    if y == 0 {
        "0"
    } else if y == 1 {
        "1"
    } else if y == 2 {
        "2"
    } else if y == 3 {
        "3"
    } else if y == 4 {
        "4"
    } else if y == 5 {
        "5"
    } else if y == 6 {
        "6"
    } else {
        "7"
    }
}

/// The signs of the first `n` squares of rank `y`.
pub open spec fn rank_text(squares: Seq<Option<(Piece, Color)>>, y: int, n: int) -> Seq<char>
    decreases n,
{
    if n <= 0 {
        Seq::empty()
    } else {
        rank_text(squares, y, n - 1) + glyph_text(squares[y * 8 + n - 1])
    }
}

/// The lines of the top `n` ranks in the drawing of a board.
pub open spec fn ranks_text(squares: Seq<Option<(Piece, Color)>>, n: int) -> Seq<char>
    decreases n,
{
    if n <= 0 {
        Seq::empty()
    } else {
        ranks_text(squares, n - 1) + rank_label_text(8 - n) + "|"@ + rank_text(squares, 8 - n, 8)
            + "|\n"@
    }
}

/// The drawing of a board.
pub open spec fn board_text(squares: Seq<Option<(Piece, Color)>>) -> Seq<char> {
    "  "@ + "abcdefgh"@ + "\n"@ + ranks_text(squares, 8)
}

/// The piece that a letter stands for in a board text: `k`, `q`, `r`,
/// `b`, `n`, `p`; upper case for White, lower case for Black.
pub open spec fn piece_of_char(ch: char) -> Option<(Piece, Color)> {
    if ch == 'k' {
        Some((Piece::King, Color::Black))
    } else if ch == 'q' {
        Some((Piece::Queen, Color::Black))
    } else if ch == 'r' {
        Some((Piece::Rook, Color::Black))
    } else if ch == 'b' {
        Some((Piece::Bishop, Color::Black))
    } else if ch == 'n' {
        Some((Piece::Knight, Color::Black))
    } else if ch == 'p' {
        Some((Piece::Pawn, Color::Black))
    } else if ch == 'K' {
        Some((Piece::King, Color::White))
    } else if ch == 'Q' {
        Some((Piece::Queen, Color::White))
    } else if ch == 'R' {
        Some((Piece::Rook, Color::White))
    } else if ch == 'B' {
        Some((Piece::Bishop, Color::White))
    } else if ch == 'N' {
        Some((Piece::Knight, Color::White))
    } else if ch == 'P' {
        Some((Piece::Pawn, Color::White))
    } else {
        None
    }
}

fn piece_of(ch: char) -> (r: Option<(Piece, Color)>)
    ensures
        r == piece_of_char(ch),
{
    match ch {
        'k' => Some((Piece::King, Color::Black)),
        'q' => Some((Piece::Queen, Color::Black)),
        'r' => Some((Piece::Rook, Color::Black)),
        'b' => Some((Piece::Bishop, Color::Black)),
        'n' => Some((Piece::Knight, Color::Black)),
        'p' => Some((Piece::Pawn, Color::Black)),
        'K' => Some((Piece::King, Color::White)),
        'Q' => Some((Piece::Queen, Color::White)),
        'R' => Some((Piece::Rook, Color::White)),
        'B' => Some((Piece::Bishop, Color::White)),
        'N' => Some((Piece::Knight, Color::White)),
        'P' => Some((Piece::Pawn, Color::White)),
        _ => None,
    }
}

/// Where a reader of piece placement stands: the board read so far, and
/// the rank and file of the next square.
pub struct Cursor {
    pub board: Board,
    pub rank: int,
    pub file: int,
}

impl Cursor {
    /// The cursor at the start of a text: an empty board, and the next
    /// square the first of the top rank.
    pub open spec fn start() -> Cursor {
        Cursor { board: Board::empty(), rank: 7, file: 0 }
    }

    /// The cursor is on a rank of the board, no square holds two pieces,
    /// and every piece stands before the cursor: on a rank above it, or
    /// on its rank on a file to the left.
    pub open spec fn wf(self) -> bool {
        &&& 0 <= self.rank < 8
        &&& 0 <= self.file
        &&& self.board.wf()
        &&& forall|sq: int| #[trigger]
            self.board.piece_at(sq) is Some ==> sq / 8 > self.rank || (sq / 8 == self.rank && sq
                % 8 < self.file)
    }

    /// The cursor after a piece was read: on the board's files the piece
    /// is put on the cursor's square; either way the cursor moves one file on.
    pub open spec fn put(self, p: Piece, c: Color) -> Cursor {
        Cursor {
            board: if self.file < 8 {
                self.board.placed(p, c, self.rank * 8 + self.file)
            } else {
                self.board
            },
            file: self.file + 1,
            ..self
        }
    }
}

/// Putting a piece on the cursor's square keeps the cursor well formed.
pub proof fn lemma_cursor_put(cur: Cursor, p: Piece, c: Color)
    requires
        cur.wf(),
    ensures
        cur.put(p, c).wf(),
{
    if cur.file < 8 {
        let sq = cur.rank * 8 + cur.file;
        lemma_placed(cur.board, p, c, sq);
    }
}

/// One character of the placement field of a FEN text: `/` goes to the
/// start of the rank below, a piece letter puts that piece and moves one
/// file on, a digit moves as many files on. Nothing where the character is
/// none of these, where `/` comes on the lowest rank, where a piece comes
/// beyond the eighth file, or where a digit takes the file beyond 255.
pub open spec fn fen_step(cur: Cursor, ch: char) -> Option<Cursor> {
    if ch == '/' {
        if cur.rank == 0 {
            None
        } else {
            Some(Cursor { rank: cur.rank - 1, file: 0, ..cur })
        }
    } else if let Some((p, c)) = piece_of_char(ch) {
        if cur.file >= 8 {
            None
        } else {
            Some(cur.put(p, c))
        }
    } else if '0' <= ch <= '9' {
        if cur.file + (ch as u32 - '0' as u32) > 255 {
            None
        } else {
            Some(Cursor { file: cur.file + (ch as u32 - '0' as u32), ..cur })
        }
    } else {
        None
    }
}

/// Reads the placement field of the FEN text `s` from index `i` on: up to
/// the first space, or to the end of the text. Gives the board and the
/// index behind the space.
pub open spec fn fen_placement(s: Seq<char>, i: int, cur: Cursor) -> Option<(Board, int)>
    decreases s.len() - i,
{
    if i < 0 || i >= s.len() {
        Some((cur.board, i))
    } else if s[i] == ' ' {
        Some((cur.board, i + 1))
    } else {
        match fen_step(cur, s[i]) {
            None => None,
            Some(next) => fen_placement(s, i + 1, next),
        }
    }
}

/// The board and the color to move that the FEN text `s` gives: the
/// placement field, ranks from the top down, then one character for the
/// color, `b` for Black and anything else, or nothing, for White. None
/// where the placement field cannot be read.
pub open spec fn spec_parse_fen_color(s: Seq<char>) -> Option<(Board, Color)> {
    match fen_placement(s, 0, Cursor::start()) {
        None => None,
        Some((board, i)) => Some(
            (
                board,
                if 0 <= i < s.len() && s[i] == 'b' {
                    Color::Black
                } else {
                    Color::White
                },
            ),
        ),
    }
}

/// How many characters a successful reading of the FEN text `s` takes: the
/// placement field, the space and the color's character, as far as they
/// are there.
pub open spec fn fen_taken(s: Seq<char>) -> int {
    match fen_placement(s, 0, Cursor::start()) {
        None => 0,
        Some((board, i)) => if i < s.len() {
            i + 1
        } else {
            s.len() as int
        },
    }
}

/// Reads a board and the color to move from the characters of a FEN text.
/// On success the iterator stands behind the color's character.
pub fn parse_fen_color<I>(it: &mut I) -> (r: Option<(Board, Color)>) where I: Iterator<Item = char>
    requires
        (*old(it)).obeys_prophetic_iter_laws(),
        (*old(it)).decrease() is Some,
    ensures
        r == spec_parse_fen_color((*old(it)).remaining()),
        r matches Some((board, color)) ==> board.wf() && forall|sq: int|
            0 <= sq < 64 ==> #[trigger] board.piece_at(sq) == fen_piece_at(
                (*old(it)).remaining(),
                0,
                7,
                sq,
            ),
        r is Some ==> (*final(it)).remaining() == (*old(it)).remaining().skip(
            fen_taken((*old(it)).remaining()),
        ),
{
    let ghost s = (*it).remaining();
    let ghost mut i: int = 0;
    let ghost mut cur = Cursor::start();
    proof {
        lemma_parse_fen_by_square(s);
    }
    let (mut r, mut c): (u8, u8) = (7, 0);
    let mut b = Board::empty();
    let mut at_end = false;
    loop
        invariant_except_break
            !at_end,
            (*it).remaining() == s.skip(i),
        invariant
            (*it).obeys_prophetic_iter_laws(),
            (*it).decrease() is Some,
            s == (*old(it)).remaining(),
            0 <= i <= s.len(),
            cur.wf(),
            cur.board == b,
            cur.rank == r,
            cur.file == c,
            fen_placement(s, 0, Cursor::start()) == fen_placement(s, i, cur),
        ensures
            at_end ==> i == s.len() && (*it).remaining().len() == 0,
            !at_end ==> i < s.len() && s[i] == ' ' && (*it).remaining() == s.skip(i + 1),
        decreases (*it).decrease()->0,
    {
        let ch = match it.next() {
            Some(ch) => ch,
            None => {
                at_end = true;
                break ;
            },
        };
        assert(ch == s[i]);
        assert((*it).remaining() == s.skip(i + 1));
        if ch == '/' {
            if r == 0 {
                return None;
            }
            r -= 1;
            c = 0;
            proof {
                cur = Cursor { rank: cur.rank - 1, file: 0, ..cur };
            }
        } else if ch == ' ' {
            break ;
        } else if let Some((piece, color)) = piece_of(ch) {
            if c >= 8 {
                return None;
            }
            place(&mut b, piece, color, &mut c, r);
            proof {
                lemma_cursor_put(cur, piece, color);
                cur = cur.put(piece, color);
            }
        } else if '0' <= ch && ch <= '9' {
            let skip = (ch as u32 - '0' as u32) as u8;
            if skip > 255 - c {
                return None;
            }
            c += skip;
            proof {
                cur = Cursor { file: cur.file + skip, ..cur };
            }
        } else {
            return None;
        }
        proof {
            i = i + 1;
        }
    }

    let c = match it.next() {
        Some('b') => Color::Black,
        _ => Color::White,
    };

    Some((b, c))
}

/// Puts a piece on file `col` of rank `row`, and moves `col` one file on.
fn place(b: &mut Board, p: Piece, c: Color, col: &mut u8, row: u8)
    requires
        *old(col) < 8,
        row < 8,
    ensures
        *final(b) == old(b).placed(p, c, row * 8 + *old(col)),
        *final(col) == *old(col) + 1,
{
    Board::set(b.get_pc_board_mut(p, c), *col, row);
    *col += 1;
}

/// The board that the FEN text `s` gives, without the color to move.
pub open spec fn spec_parse_fen(s: Seq<char>) -> Option<Board> {
    match spec_parse_fen_color(s) {
        Some((board, color)) => Some(board),
        None => None,
    }
}

/// Reads a board from a FEN text, of which only the placement field is
/// looked at.
pub fn parse_fen(s: &str) -> (r: Option<Board>)
    ensures
        r == spec_parse_fen(s@),
        r matches Some(board) ==> board.wf() && forall|sq: int|
            0 <= sq < 64 ==> #[trigger] board.piece_at(sq) == fen_piece_at(s@, 0, 7, sq),
{
    let mut it = s.chars();
    match parse_fen_color(&mut it) {
        Some(x) => Some(x.0),
        None => None,
    }
}

/// A line without the carriage return at its end, if it has one.
pub open spec fn without_cr(line: Seq<char>) -> Seq<char> {
    if line.len() > 0 && line.last() == '\r' {
        line.drop_last()
    } else {
        line
    }
}

/// The lines of the text `s` from index `i` on, where the line that holds
/// `i` begins at `start`. A line ends before a line feed, or before a
/// carriage return and a line feed; the last line needs no line feed, and
/// a text that ends in a line feed has no empty line behind it.
pub open spec fn lines_from(s: Seq<char>, i: int, start: int) -> Seq<Seq<char>>
    decreases s.len() - i,
{
    if i < 0 || i >= s.len() {
        if 0 <= start < s.len() {
            seq![s.subrange(start, s.len() as int)]
        } else {
            Seq::empty()
        }
    } else if s[i] == '\n' {
        seq![without_cr(s.subrange(start, i))] + lines_from(s, i + 1, i + 1)
    } else {
        lines_from(s, i + 1, start)
    }
}

/// The lines of a text.
pub open spec fn text_lines(s: Seq<char>) -> Seq<Seq<char>> {
    lines_from(s, 0, 0)
}

/// Splits a text into its lines.
fn split_lines(s: &str) -> (lines: Vec<Vec<char>>)
    ensures
        lines@.len() == text_lines(s@).len(),
        forall|k: int| 0 <= k < lines@.len() ==> (#[trigger] lines@[k])@ == text_lines(s@)[k],
{
    let mut lines: Vec<Vec<char>> = Vec::new();
    let mut line: Vec<char> = Vec::new();
    let ghost whole = text_lines(s@);
    let ghost mut i: int = 0;
    let ghost mut start: int = 0;
    let mut it = s.chars();
    loop
        invariant
            it.obeys_prophetic_iter_laws(),
            it.decrease() is Some,
            0 <= start <= i <= s@.len(),
            it.remaining() == s@.skip(i),
            line@ == s@.subrange(start, i),
            whole == text_lines(s@),
            lines@.len() + lines_from(s@, i, start).len() == whole.len(),
            forall|k: int| 0 <= k < lines@.len() ==> (#[trigger] lines@[k])@ == whole[k],
            forall|k: int|
                0 <= k < lines_from(s@, i, start).len() ==> #[trigger] lines_from(s@, i, start)[k]
                    == whole[lines@.len() + k],
        ensures
            i == s@.len(),
        decreases it.decrease()->0,
    {
        let ch = match it.next() {
            Some(ch) => ch,
            None => {
                break ;
            },
        };
        assert(ch == s@[i]);
        let ghost rest = lines_from(s@, i, start);
        if ch == '\n' {
            if line.len() > 0 && line[line.len() - 1] == '\r' {
                line.pop();
            }
            assert(line@ == without_cr(s@.subrange(start, i)));
            lines.push(line);
            line = Vec::new();
            proof {
                let next = lines_from(s@, i + 1, i + 1);
                assert forall|k: int| 0 <= k < next.len() implies #[trigger] next[k] == whole[lines@.len()
                    + k] by {
                    assert(next[k] == rest[k + 1]);
                }
                assert(rest[0] == whole[lines@.len() - 1]);
                start = i + 1;
            }
        } else {
            line.push(ch);
        }
        proof {
            i = i + 1;
            assert(line@ =~= s@.subrange(start, i));
        }
    }
    if line.len() > 0 {
        assert(lines_from(s@, i, start)[0] == whole[lines@.len() as int]);
        lines.push(line);
    }
    lines
}

/// Reads the characters of one row of a board text from index `i` on: a
/// piece letter puts that piece and moves one file on, an underscore moves
/// one file on, and any other character is passed over.
pub open spec fn read_row(cur: Cursor, row: Seq<char>, i: int) -> Cursor
    decreases row.len() - i,
{
    if i < 0 || i >= row.len() {
        cur
    } else if let Some((p, c)) = piece_of_char(row[i]) {
        read_row(cur.put(p, c), row, i + 1)
    } else if row[i] == '_' {
        read_row(Cursor { file: cur.file + 1, ..cur }, row, i + 1)
    } else {
        read_row(cur, row, i + 1)
    }
}

/// Reads the lines of a board text from line `k` on. An empty line is
/// passed over; every other line is a row, read from the first file on the
/// cursor's rank, and the cursor then goes one rank down. The reading
/// ends behind the row of the lowest rank.
pub open spec fn read_rows(cur: Cursor, lines: Seq<Seq<char>>, k: int) -> Board
    decreases lines.len() - k,
{
    if k < 0 || k >= lines.len() {
        cur.board
    } else if lines[k].len() == 0 {
        read_rows(cur, lines, k + 1)
    } else {
        let after = read_row(Cursor { file: 0, ..cur }, lines[k], 0);
        if cur.rank == 0 {
            after.board
        } else {
            read_rows(Cursor { rank: cur.rank - 1, file: 0, ..after }, lines, k + 1)
        }
    }
}

/// The board that a board text gives: its rows from the top rank down,
/// each with its squares from the first file on; upper case letters for
/// White's pieces, lower case for Black's, an underscore for an empty
/// square. Empty lines, characters that name nothing, cells beyond the
/// eighth file and rows beyond the eighth are left out.
pub open spec fn spec_parse(s: Seq<char>) -> Board {
    read_rows(Cursor::start(), text_lines(s), 0)
}

/// Reads a board from a board text. Every text gives a board: one on
/// which no square holds two pieces, and every square holds what the text
/// says of it.
pub fn parse(s: &str) -> (r: Option<Board>)
    ensures
        r == Some(spec_parse(s@)),
        spec_parse(s@).wf(),
        forall|sq: int| #[trigger] spec_parse(s@).piece_at(sq) == text_piece_at(s@, sq),
{
    proof {
        lemma_parse_by_square(s@);
    }
    let lines = split_lines(s);
    let ghost rows = text_lines(s@);
    let ghost mut cur = Cursor::start();
    let mut b = Board::empty();
    let mut y: u8 = 7;
    let mut k: usize = 0;
    while k < lines.len()
        invariant_except_break
            spec_parse(s@) == read_rows(cur, rows, k as int),
            cur.file == 0,
        invariant
            k <= lines.len(),
            lines@.len() == rows.len(),
            forall|j: int| 0 <= j < lines@.len() ==> (#[trigger] lines@[j])@ == rows[j],
            cur.wf(),
            cur.board == b,
            cur.rank == y,
            rows == text_lines(s@),
        ensures
            cur.wf(),
            cur.board == b,
            spec_parse(s@) == b,
        decreases lines.len() - k,
    {
        let l = &lines[k];
        assert(l@ == rows[k as int]);
        // skip empty lines
        if l.len() != 0 {
            let mut x: usize = 0;
            let mut i: usize = 0;
            let ghost first = cur;
            while i < l.len()
                invariant
                    i <= l.len(),
                    x <= i,
                    y < 8,
                    cur.wf(),
                    cur.board == b,
                    cur.rank == y,
                    cur.file == x,
                    read_row(first, l@, 0) == read_row(cur, l@, i as int),
                decreases l.len() - i,
            {
                let cc = l[i];
                match piece_of(cc) {
                    Some((p, c)) => {
                        if x < 8 {
                            let bb = b.get_pc_board_mut(p, c);
                            Board::set(bb, x as u8, y);
                        }
                        proof {
                            lemma_cursor_put(cur, p, c);
                            cur = cur.put(p, c);
                        }
                        x += 1;
                    },
                    None => {
                        if cc == '_' {
                            x += 1;
                            proof {
                                cur = Cursor { file: cur.file + 1, ..cur };
                            }
                        }
                    },
                }
                i += 1;
            }
            if y == 0 {
                break ;
            }
            y -= 1;
            proof {
                cur = Cursor { rank: cur.rank - 1, file: 0, ..cur };
            }
        }
        k += 1;
    }
    Some(b)
}

/// The cells of a row of a board text from index `i` on: its piece
/// letters and its underscores, in their order.
pub open spec fn row_cells(row: Seq<char>, i: int) -> Seq<char>
    decreases row.len() - i,
{
    if i < 0 || i >= row.len() {
        Seq::empty()
    } else if piece_of_char(row[i]) is Some || row[i] == '_' {
        seq![row[i]] + row_cells(row, i + 1)
    } else {
        row_cells(row, i + 1)
    }
}

/// The rows among the lines of a board text from line `k` on: the lines
/// that are not empty, in their order.
pub open spec fn text_rows(lines: Seq<Seq<char>>, k: int) -> Seq<Seq<char>>
    decreases lines.len() - k,
{
    if k < 0 || k >= lines.len() {
        Seq::empty()
    } else if lines[k].len() == 0 {
        text_rows(lines, k + 1)
    } else {
        seq![lines[k]] + text_rows(lines, k + 1)
    }
}

/// What the rows `rows` say of square `sq`, where the first of them is
/// rank `top`: the piece that the cell of the square's file names, in the
/// row of the square's rank; nothing where the row or the cell is not there.
pub open spec fn rows_piece_at(rows: Seq<Seq<char>>, top: int, sq: int) -> Option<(Piece, Color)> {
    let k = top - sq / 8;
    let file = sq % 8;
    if 0 <= sq < 64 && 0 <= k < rows.len() && file < row_cells(rows[k], 0).len() {
        piece_of_char(row_cells(rows[k], 0)[file])
    } else {
        None
    }
}

/// What a board text says of square `sq`, its first row being the top
/// rank.
pub open spec fn text_piece_at(s: Seq<char>, sq: int) -> Option<(Piece, Color)> {
    rows_piece_at(text_rows(text_lines(s), 0), 7, sq)
}

proof fn lemma_read_row(cur: Cursor, row: Seq<char>, i: int)
    requires
        cur.wf(),
        0 <= i <= row.len(),
    ensures
        read_row(cur, row, i).wf(),
        read_row(cur, row, i).rank == cur.rank,
        read_row(cur, row, i).file == cur.file + row_cells(row, i).len(),
        forall|sq: int| #[trigger]
            read_row(cur, row, i).board.piece_at(sq) == (if 0 <= sq < 64 && sq / 8 == cur.rank
                && sq % 8 >= cur.file {
                if sq % 8 - cur.file < row_cells(row, i).len() {
                    piece_of_char(row_cells(row, i)[sq % 8 - cur.file])
                } else {
                    None
                }
            } else {
                cur.board.piece_at(sq)
            }),
    decreases row.len() - i,
{
    let after = read_row(cur, row, i);
    let cells = row_cells(row, i);
    if i < row.len() {
        let rest = row_cells(row, i + 1);
        if let Some((p, c)) = piece_of_char(row[i]) {
            let next = cur.put(p, c);
            lemma_cursor_put(cur, p, c);
            if cur.file < 8 {
                lemma_placed(cur.board, p, c, cur.rank * 8 + cur.file);
            }
            lemma_read_row(next, row, i + 1);
            assert forall|sq: int| #[trigger]
                after.board.piece_at(sq) == (if 0 <= sq < 64 && sq / 8 == cur.rank && sq % 8
                    >= cur.file {
                    if sq % 8 - cur.file < cells.len() {
                        piece_of_char(cells[sq % 8 - cur.file])
                    } else {
                        None
                    }
                } else {
                    cur.board.piece_at(sq)
                }) by {
                if 0 <= sq < 64 && sq / 8 == cur.rank && cur.file < sq % 8 < cur.file
                    + cells.len() {
                    assert(cells[sq % 8 - cur.file] == rest[sq % 8 - next.file]);
                }
            }
        } else if row[i] == '_' {
            let next = Cursor { file: cur.file + 1, ..cur };
            lemma_read_row(next, row, i + 1);
            assert forall|sq: int| #[trigger]
                after.board.piece_at(sq) == (if 0 <= sq < 64 && sq / 8 == cur.rank && sq % 8
                    >= cur.file {
                    if sq % 8 - cur.file < cells.len() {
                        piece_of_char(cells[sq % 8 - cur.file])
                    } else {
                        None
                    }
                } else {
                    cur.board.piece_at(sq)
                }) by {
                if 0 <= sq < 64 && sq / 8 == cur.rank && cur.file < sq % 8 < cur.file
                    + cells.len() {
                    assert(cells[sq % 8 - cur.file] == rest[sq % 8 - next.file]);
                }
            }
        } else {
            lemma_read_row(cur, row, i + 1);
        }
    }
}

proof fn lemma_read_rows(cur: Cursor, lines: Seq<Seq<char>>, k: int)
    requires
        cur.wf(),
        cur.file == 0,
        0 <= k <= lines.len(),
    ensures
        read_rows(cur, lines, k).wf(),
        forall|sq: int| #[trigger]
            read_rows(cur, lines, k).piece_at(sq) == (if 0 <= sq < 64 && sq / 8 <= cur.rank {
                rows_piece_at(text_rows(lines, k), cur.rank, sq)
            } else {
                cur.board.piece_at(sq)
            }),
    decreases lines.len() - k,
{
    let whole = read_rows(cur, lines, k);
    let rows = text_rows(lines, k);
    if k < lines.len() {
        if lines[k].len() == 0 {
            lemma_read_rows(cur, lines, k + 1);
        } else {
            let after = read_row(cur, lines[k], 0);
            lemma_read_row(cur, lines[k], 0);
            let rest = text_rows(lines, k + 1);
            assert(rows[0] == lines[k]);
            if cur.rank > 0 {
                let next = Cursor { rank: cur.rank - 1, file: 0, ..after };
                lemma_read_rows(next, lines, k + 1);
                assert forall|sq: int| #[trigger]
                    whole.piece_at(sq) == (if 0 <= sq < 64 && sq / 8 <= cur.rank {
                        rows_piece_at(rows, cur.rank, sq)
                    } else {
                        cur.board.piece_at(sq)
                    }) by {
                    if 0 <= sq < 64 && sq / 8 < cur.rank && cur.rank - sq / 8 < rows.len() {
                        assert(rows[cur.rank - sq / 8] == rest[next.rank - sq / 8]);
                    }
                }
            }
        }
    }
}

/// A board text gives the board that it shows: on every square stands
/// what the text says of the square.
pub proof fn lemma_parse_by_square(s: Seq<char>)
    ensures
        spec_parse(s).wf(),
        forall|sq: int| #[trigger] spec_parse(s).piece_at(sq) == text_piece_at(s, sq),
{
    lemma_empty_board();
    lemma_read_rows(Cursor::start(), text_lines(s), 0);
}

/// The empty squares that a digit of a FEN text stands for.
pub open spec fn fen_run(ch: char) -> Seq<Option<(Piece, Color)>> {
    Seq::new((ch as u32 - '0' as u32) as nat, |j: int| None)
}

/// The squares of the rank of a FEN text that goes on at index `i`, up to
/// the next `/` or space: a piece for each piece letter, and for each digit
/// as many empty squares.
pub open spec fn fen_rank(s: Seq<char>, i: int) -> Seq<Option<(Piece, Color)>>
    decreases s.len() - i,
{
    if i < 0 || i >= s.len() || s[i] == '/' || s[i] == ' ' {
        Seq::empty()
    } else if piece_of_char(s[i]) is Some {
        seq![piece_of_char(s[i])] + fen_rank(s, i + 1)
    } else if '0' <= s[i] <= '9' {
        fen_run(s[i]) + fen_rank(s, i + 1)
    } else {
        fen_rank(s, i + 1)
    }
}

/// The index at which the rank `k` ranks below the one that goes on at
/// index `i` begins: behind the `k`-th `/` from `i` on; nothing where the
/// placement field ends before.
pub open spec fn fen_rank_start(s: Seq<char>, i: int, k: int) -> Option<int>
    decreases s.len() - i,
{
    if k <= 0 {
        Some(i)
    } else if i < 0 || i >= s.len() || s[i] == ' ' {
        None
    } else if s[i] == '/' {
        fen_rank_start(s, i + 1, k - 1)
    } else {
        fen_rank_start(s, i + 1, k)
    }
}

/// What the FEN text `s` says of square `sq`, where the rank that goes on
/// at index `i` is rank `top`.
pub open spec fn fen_piece_at(s: Seq<char>, i: int, top: int, sq: int) -> Option<(Piece, Color)> {
    match fen_rank_start(s, i, top - sq / 8) {
        Some(start) => if sq % 8 < fen_rank(s, start).len() {
            fen_rank(s, start)[sq % 8]
        } else {
            None
        },
        None => None,
    }
}

proof fn lemma_fen_placement(s: Seq<char>, i: int, cur: Cursor)
    requires
        cur.wf(),
        0 <= i <= s.len(),
        fen_placement(s, i, cur) is Some,
    ensures
        fen_placement(s, i, cur).unwrap().0.wf(),
        forall|sq: int| #[trigger]
            fen_placement(s, i, cur).unwrap().0.piece_at(sq) == (if 0 <= sq < 64 && sq / 8
                == cur.rank && sq % 8 >= cur.file {
                if sq % 8 - cur.file < fen_rank(s, i).len() {
                    fen_rank(s, i)[sq % 8 - cur.file]
                } else {
                    None
                }
            } else if 0 <= sq < 64 && sq / 8 < cur.rank {
                fen_piece_at(s, i, cur.rank, sq)
            } else {
                cur.board.piece_at(sq)
            }),
    decreases s.len() - i,
{
    let b = fen_placement(s, i, cur).unwrap().0;
    let cells = fen_rank(s, i);
    if i < s.len() && s[i] != ' ' {
        let next = fen_step(cur, s[i]).unwrap();
        let rest = fen_rank(s, i + 1);
        if s[i] == '/' {
        } else if let Some((p, c)) = piece_of_char(s[i]) {
            lemma_cursor_put(cur, p, c);
            lemma_placed(cur.board, p, c, cur.rank * 8 + cur.file);
        }
        lemma_fen_placement(s, i + 1, next);
        assert forall|sq: int| #[trigger]
            b.piece_at(sq) == (if 0 <= sq < 64 && sq / 8 == cur.rank && sq % 8 >= cur.file {
                if sq % 8 - cur.file < cells.len() {
                    cells[sq % 8 - cur.file]
                } else {
                    None
                }
            } else if 0 <= sq < 64 && sq / 8 < cur.rank {
                fen_piece_at(s, i, cur.rank, sq)
            } else {
                cur.board.piece_at(sq)
            }) by {
            if 0 <= sq < 64 && sq / 8 == cur.rank && sq % 8 >= cur.file && sq % 8 - cur.file
                < cells.len() && s[i] != '/' {
                let j = sq % 8 - cur.file;
                if piece_of_char(s[i]) is Some {
                    if j > 0 {
                        assert(cells[j] == rest[j - 1]);
                    }
                } else {
                    let run = fen_run(s[i]);
                    if j >= run.len() {
                        assert(cells[j] == rest[j - run.len()]);
                    } else {
                        assert(cells[j] == run[j]);
                    }
                }
            }
        }
    }
}

/// A FEN text that can be read gives the board that it shows: no square
/// holds two pieces, and on every square stands what the text says of it.
pub proof fn lemma_parse_fen_by_square(s: Seq<char>)
    ensures
        spec_parse_fen_color(s) matches Some((board, color)) ==> board.wf() && forall|sq: int|
            0 <= sq < 64 ==> #[trigger] board.piece_at(sq) == fen_piece_at(s, 0, 7, sq),
{
    if spec_parse_fen_color(s) is Some {
        lemma_empty_board();
        lemma_fen_placement(s, 0, Cursor::start());
    }
}

} // verus!
