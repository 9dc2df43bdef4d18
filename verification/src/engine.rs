//! The engine behind a line-oriented protocol: it takes one command line at
//! a time, keeps the position that the commands set up, and says what is to
//! be answered. Reading the lines and writing the answers is the caller's
//! part.

use crate::ai::{best_move_spec, AiPlayer};
use crate::board::{lemma_apply, lemma_start_layout, Board, Color};
use crate::evaluate::BasicEvaluator;
use crate::square::{lemma_parse_move_advances, parse_move, spec_parse_move, GenMove};
use vstd::prelude::*;
use vstd::std_specs::iter::IteratorSpec;

verus! {

/// What is to be done in answer to a command.
#[derive(Debug, Clone, Copy, PartialEq, Eq)]
pub enum Action {
    /// Nothing is to be answered.
    Nothing,
    /// The engine is to name itself and its options.
    Identify,
    /// The engine is to say that it is ready.
    ReadyOk,
    /// The engine is to give this move as its best.
    BestMove(GenMove),
    /// A move was asked for where the side to move has none.
    NoMove,
    /// A list of moves held a move from an empty square.
    IllegalMove,
    /// The command is known and not supported.
    Unsupported,
    /// The command is not known.
    Unknown,
}

/// The characters of a text.
fn chars_of(s: &str) -> (v: Vec<char>)
    ensures
        v@ == s@,
{
    let mut v: Vec<char> = Vec::new();
    let ghost mut i: int = 0;
    let mut it = s.chars();
    loop
        invariant
            it.obeys_prophetic_iter_laws(),
            it.decrease() is Some,
            0 <= i <= s@.len(),
            it.remaining() == s@.skip(i),
            v@ == s@.take(i),
        ensures
            i == s@.len(),
        decreases it.decrease()->0,
    {
        match it.next() {
            Some(ch) => {
                v.push(ch);
                proof {
                    i = i + 1;
                    assert(v@ =~= s@.take(i));
                }
            },
            None => {
                break ;
            },
        }
    }
    assert(s@.take(i) =~= s@);
    v
}

/// Whether the text begins with the word.
fn begins_with(text: &Vec<char>, word: &str) -> (r: bool)
    ensures
        r == word@.is_prefix_of(text@),
{
    let ghost mut i: int = 0;
    let mut k: usize = 0;
    let mut it = word.chars();
    loop
        invariant
            it.obeys_prophetic_iter_laws(),
            it.decrease() is Some,
            0 <= i <= word@.len(),
            i == k,
            k <= text@.len(),
            it.remaining() == word@.skip(i),
            word@.take(i) == text@.take(i),
        ensures
            i == word@.len(),
            word@.take(i) == text@.take(i),
            i <= text@.len(),
        decreases it.decrease()->0,
    {
        match it.next() {
            Some(ch) => {
                if k >= text.len() || text[k] != ch {
                    proof {
                        if word@.is_prefix_of(text@) {
                            assert(text@.subrange(0, word@.len() as int)[i] == word@[i]);
                        }
                    }
                    return false;
                }
                k += 1;
                proof {
                    i = i + 1;
                    assert(word@.take(i) =~= text@.take(i));
                }
            },
            None => {
                break ;
            },
        }
    }
    assert(word@.take(i) =~= word@);
    assert(text@.take(i) =~= text@.subrange(0, word@.len() as int));
    true
}

/// Whether the text is the word.
fn is_word(text: &Vec<char>, word: &str) -> (r: bool)
    ensures
        r == (text@ == word@),
{
    let r = begins_with(text, word) && text.len() == word.unicode_len();
    proof {
        if r {
            assert(text@ =~= text@.subrange(0, word@.len() as int));
        }
    }
    r
}

/// The board and the count of moves after the moves of the list `text`,
/// from index `pos` on, were played one after another on `board`. None
/// where one of the moves starts on an empty square.
pub open spec fn replay(board: Board, text: Seq<char>, pos: int, count: nat) -> Option<(Board, nat)>
    decreases text.len() - pos,
    via replay_ends
{
    match spec_parse_move(text, pos) {
        None => Some((board, count)),
        Some((m, next)) => match board.spec_apply(m) {
            None => None,
            Some(after) => replay(after, text, next, count + 1),
        },
    }
}

#[via_fn]
proof fn replay_ends(board: Board, text: Seq<char>, pos: int, count: nat) {
    lemma_parse_move_advances(text, pos);
}

/// Moves played on a board where no square holds two pieces give such a
/// board again.
pub proof fn lemma_replay_wf(board: Board, text: Seq<char>, pos: int, count: nat)
    requires
        board.wf(),
    ensures
        replay(board, text, pos, count) matches Some((after, played)) ==> after.wf(),
    decreases text.len() - pos,
{
    lemma_parse_move_advances(text, pos);
    if let Some((m, next)) = spec_parse_move(text, pos) {
        if let Some(after) = board.spec_apply(m) {
            lemma_apply(board, m);
            lemma_replay_wf(after, text, next, count + 1);
        }
    }
}

/// The color that moves after `count` moves from the opening.
pub open spec fn side_to_move(count: nat) -> Color {
    if count % 2 == 0 {
        Color::White
    } else {
        Color::Black
    }
}

/// The state of the engine after a command, and what is to be answered.
///
/// - `uci`: the engine names itself; `isready`: it is ready.
/// - `quit` and `ucinewgame` change nothing.
/// - `position startpos` sets the opening layout up and leaves the
///   count of moves.
/// - `position startpos moves`, followed by moves: the moves are played
///   from the opening layout and counted. Where one of them starts on
///   an empty square nothing changes.
/// - `go`, followed by anything: the search's move for the side to move,
///   which does not change the position.
/// - `position fen <FEN>` is not supported, and anything else is not known.
pub open spec fn spec_process(board: Board, count: nat, cmd: Seq<char>) -> (Board, nat, Action) {
    if cmd == "quit"@ {
        (board, count, Action::Nothing)
    } else if cmd == "uci"@ {
        (board, count, Action::Identify)
    } else if cmd == "isready"@ {
        (board, count, Action::ReadyOk)
    } else if cmd == "ucinewgame"@ {
        (board, count, Action::Nothing)
    } else if cmd == "position startpos"@ {
        (Board::new_start(), count, Action::Nothing)
    } else if cmd == "position fen <FEN>"@ {
        (board, count, Action::Unsupported)
    } else if "go"@.is_prefix_of(cmd) {
        match best_move_spec(BasicEvaluator, side_to_move(count), board) {
            Some(m) => (board, count, Action::BestMove(m)),
            None => (board, count, Action::NoMove),
        }
    } else if "position startpos moves"@.is_prefix_of(cmd) {
        match replay(Board::new_start(), cmd, "position startpos moves"@.len() as int, 0) {
            Some((after, played)) => (after, played, Action::Nothing),
            None => (board, count, Action::IllegalMove),
        }
    } else {
        (board, count, Action::Unknown)
    }
}

/// The position that the commands set up, the player that answers `go`,
/// and the count of the moves played.
pub struct Engine {
    board: Board,
    ai: AiPlayer<BasicEvaluator>,
    move_count: usize,
}

impl Engine {
    /// The position that the commands have set up.
    pub closed spec fn position(&self) -> Board {
        self.board
    }

    /// The count of the moves that the last list of moves held.
    pub closed spec fn played(&self) -> nat {
        self.move_count as nat
    }

    #[verifier::type_invariant]
    spec fn inv(&self) -> bool {
        self.ai.evaluator() == BasicEvaluator && self.board.wf()
    }

    /// The position that the commands have set up. No square of it holds
    /// two pieces.
    pub fn board(&self) -> (b: &Board)
        ensures
            *b == self.position(),
            b.wf(),
    {
        proof {
            use_type_invariant(self);
        }
        &self.board
    }

    /// The count of the moves that the last list of moves held.
    pub fn move_count(&self) -> (n: usize)
        ensures
            n == self.played(),
    {
        self.move_count
    }

    /// An engine with an empty board, before any move.
    pub fn new() -> (r: Self)
        ensures
            r.position() == Board::empty(),
            r.position().wf(),
            r.played() == 0,
    {
        Engine {
            board: Board::empty(),
            ai: AiPlayer::new([42, 0, 0, 0, 0, 0, 0, 0, 0, 0, 0, 0, 0, 0, 0, 0]),
            move_count: 0,
        }
    }

    /// The board after the moves of a list, and their count.
    fn replay_moves(text: &Vec<char>, start: usize) -> (r: Option<(Board, usize)>)
        ensures
            match r {
                Some((board, count)) => replay(Board::new_start(), text@, start as int, 0) == Some(
                    (board, count as nat),
                ) && board.wf(),
                None => replay(Board::new_start(), text@, start as int, 0) is None,
            },
    {
        let mut board = Board::new_start();
        let mut count: usize = 0;
        let mut pos = start;
        loop
            invariant
                board.wf(),
                count + start <= pos,
                count > 0 ==> pos <= text@.len(),
                replay(Board::new_start(), text@, start as int, 0) == replay(
                    board,
                    text@,
                    pos as int,
                    count as nat,
                ),
            decreases
                    (if pos <= text@.len() {
                        text@.len() - pos + 1
                    } else {
                        0
                    }),
        {
            match parse_move(text, pos) {
                None => {
                    return Some((board, count));
                },
                Some((mov, next)) => {
                    match board.apply(&mov) {
                        None => {
                            return None;
                        },
                        Some(after) => {
                            board = after;
                            count += 1;
                            pos = next;
                        },
                    }
                },
            }
        }
    }

    /// Takes one command line: changes the position as the command says
    /// and returns what is to be answered.
    pub fn process(&mut self, cmd: &str) -> (action: Action)
        ensures
            (final(self).position(), final(self).played(), action) == spec_process(
                old(self).position(),
                old(self).played(),
                cmd@,
            ),
            final(self).position().wf(),
    {
        proof {
            use_type_invariant(&*self);
        }
        let text = chars_of(cmd);
        if is_word(&text, "quit") {
            Action::Nothing
        } else if is_word(&text, "uci") {
            Action::Identify
        } else if is_word(&text, "isready") {
            Action::ReadyOk
        } else if is_word(&text, "ucinewgame") {
            Action::Nothing
        } else if is_word(&text, "position startpos") {
            self.board = Board::new_start();
            Action::Nothing
        } else if is_word(&text, "position fen <FEN>") {
            Action::Unsupported
        } else if begins_with(&text, "go") {
            let color = if self.move_count % 2 == 0 {
                Color::White
            } else {
                Color::Black
            };
            match self.ai.best_move(color, &self.board) {
                Some(mov) => Action::BestMove(mov),
                None => Action::NoMove,
            }
        } else if begins_with(&text, "position startpos moves") {
            let start = "position startpos moves".unicode_len();
            match Self::replay_moves(&text, start) {
                Some((board, count)) => {
                    self.board = board;
                    self.move_count = count;
                    Action::Nothing
                },
                None => Action::IllegalMove,
            }
        } else {
            Action::Unknown
        }
    }
}

/// A command leaves the engine with a position on which no square holds
/// two pieces, if it found one.
pub proof fn lemma_process_wf(board: Board, count: nat, cmd: Seq<char>)
    requires
        board.wf(),
    ensures
        spec_process(board, count, cmd).0.wf(),
{
    lemma_start_layout();
    lemma_replay_wf(Board::new_start(), cmd, "position startpos moves"@.len() as int, 0);
}

} // verus!
