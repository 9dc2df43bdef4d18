use rustchess::board::{Board, Color, Piece};
use rustchess::engine::{Action, Engine};
use rustchess::move_generator::{parse_move, Case, Flags, GenMove};

fn sq(name: &str) -> Case {
    Case::parse(&mut name.chars()).unwrap()
}

fn chars(s: &str) -> Vec<char> {
    s.chars().collect()
}

#[test]
fn parse_move_reads_a_list() {
    let text = chars("  e2e4 e7e5   g1f3");
    let (m, next) = parse_move(&text, 0).unwrap();
    assert_eq!(GenMove::new(sq("e2"), sq("e4"), Flags::none()), m);
    assert_eq!(6, next);
    let (m, next) = parse_move(&text, next).unwrap();
    assert_eq!(GenMove::new(sq("e7"), sq("e5"), Flags::none()), m);
    assert_eq!(11, next);
    let (m, next) = parse_move(&text, next).unwrap();
    assert_eq!(GenMove::new(sq("g1"), sq("f3"), Flags::none()), m);
    assert_eq!(18, next);
    assert_eq!(None, parse_move(&text, next));
    assert_eq!(None, parse_move(&text, 100));
}

#[test]
fn parse_move_takes_the_promotion_letter() {
    let text = chars("a7a8q b2b1");
    let (m, next) = parse_move(&text, 0).unwrap();
    assert_eq!(GenMove::new(sq("a7"), sq("a8"), Flags::none()), m);
    assert_eq!(None, m.promotion);
    assert_eq!(5, next);
    let (m, next) = parse_move(&text, next).unwrap();
    assert_eq!(GenMove::new(sq("b2"), sq("b1"), Flags::none()), m);
    assert_eq!(10, next);
    // a letter that names no piece stays
    assert_eq!(4, parse_move(&chars("a7a8x"), 0).unwrap().1);
}

#[test]
fn parse_move_rejects_what_is_no_move() {
    assert_eq!(None, parse_move(&chars(""), 0));
    assert_eq!(None, parse_move(&chars("   "), 0));
    assert_eq!(None, parse_move(&chars("e2e"), 0));
    assert_eq!(None, parse_move(&chars("e2e9"), 0));
    assert_eq!(None, parse_move(&chars("i2e4"), 0));
    assert_eq!(None, parse_move(&chars("e2 e4"), 0));
}

#[test]
fn engine_handshake() {
    let mut e = Engine::new();
    assert_eq!(&Board::empty(), e.board());
    assert_eq!(0, e.move_count());
    assert_eq!(Action::Identify, e.process("uci"));
    assert_eq!(Action::ReadyOk, e.process("isready"));
    assert_eq!(Action::Nothing, e.process("ucinewgame"));
    assert_eq!(Action::Nothing, e.process("quit"));
    assert_eq!(Action::Unknown, e.process("ucix"));
    assert_eq!(Action::Unknown, e.process(""));
    assert_eq!(Action::Unknown, e.process("position"));
    assert_eq!(Action::Unsupported, e.process("position fen <FEN>"));
    assert_eq!(&Board::empty(), e.board());
}

#[test]
fn engine_sets_positions_up() {
    let mut e = Engine::new();
    assert_eq!(Action::Nothing, e.process("position startpos"));
    assert_eq!(&Board::new_start(), e.board());
    assert_eq!(0, e.move_count());
    assert_eq!(Action::Nothing, e.process("position startpos moves e2e4 e7e5 g1f3"));
    assert_eq!(3, e.move_count());
    let b = *e.board();
    assert_eq!(Some((Piece::Pawn, Color::White)), b.at_pos(&sq("e4")));
    assert_eq!(Some((Piece::Pawn, Color::Black)), b.at_pos(&sq("e5")));
    assert_eq!(Some((Piece::Knight, Color::White)), b.at_pos(&sq("f3")));
    assert_eq!(None, b.at_pos(&sq("g1")));
    // the opening layout leaves the count of moves
    assert_eq!(Action::Nothing, e.process("position startpos"));
    assert_eq!(3, e.move_count());
    assert_eq!(&Board::new_start(), e.board());
    // an empty list of moves
    assert_eq!(Action::Nothing, e.process("position startpos moves"));
    assert_eq!(0, e.move_count());
}

#[test]
fn engine_rejects_a_move_from_an_empty_square() {
    let mut e = Engine::new();
    assert_eq!(Action::Nothing, e.process("position startpos moves e2e4"));
    let before = *e.board();
    assert_eq!(Action::IllegalMove, e.process("position startpos moves e2e4 e2e3"));
    assert_eq!(&before, e.board());
    assert_eq!(1, e.move_count());
}

#[test]
fn engine_answers_go() {
    let mut e = Engine::new();
    // an empty board has no move
    assert_eq!(Action::NoMove, e.process("go"));
    assert_eq!(Action::Nothing, e.process("position startpos moves e2e4"));
    let before = *e.board();
    match e.process("go wtime 1000") {
        Action::BestMove(m) => {
            // Black is to move
            assert_eq!(Some(Color::Black), before.at_pos(&m.from).map(|pc| pc.1));
        }
        other => panic!("{:?}", other),
    }
    assert_eq!(&before, e.board());
    assert_eq!(1, e.move_count());
}

#[test]
fn engine_keeps_pieces_apart() {
    let mut e = Engine::new();
    // a rook takes a piece of its own color, and the pawn in front of it
    assert_eq!(Action::Nothing, e.process("position startpos moves a1b1 b1b2 e7e5 b2b7"));
    let b = *e.board();
    let masks = [
        b.white.pawns, b.white.knights, b.white.bishops, b.white.rooks, b.white.queens,
        b.white.king, b.black.pawns, b.black.knights, b.black.bishops, b.black.rooks,
        b.black.queens, b.black.king,
    ];
    for i in 0..12 {
        for j in (i + 1)..12 {
            assert_eq!(0, masks[i] & masks[j]);
        }
    }
    assert_eq!(0, b.white.all() & b.black.all());
    assert_eq!(Some((Piece::Rook, Color::White)), b.at_pos(&sq("b7")));
    assert_eq!(None, b.at_pos(&sq("b1")));
    assert_eq!(None, b.at_pos(&sq("b2")));
    assert_eq!(4, e.move_count());
}
