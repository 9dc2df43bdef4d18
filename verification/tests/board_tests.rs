use rustchess::board;
use rustchess::board::{parse_fen, parse_fen_color, Board, Color, PartialBoard, Piece};
use rustchess::move_generator::{generate_moves, AttackTables, Case, Flags, GenMove};

fn sq(name: &str) -> Case {
    Case::parse(&mut name.chars()).unwrap()
}

fn mv(from: &str, to: &str) -> GenMove {
    GenMove::new(sq(from), sq(to), Flags::none())
}

fn occupancy_disjoint(b: &Board) -> bool {
    let masks = [
        b.white.pawns,
        b.white.knights,
        b.white.bishops,
        b.white.rooks,
        b.white.queens,
        b.white.king,
        b.black.pawns,
        b.black.knights,
        b.black.bishops,
        b.black.rooks,
        b.black.queens,
        b.black.king,
    ];
    for i in 0..masks.len() {
        for j in (i + 1)..masks.len() {
            if masks[i] & masks[j] != 0 {
                return false;
            }
        }
    }
    b.white.all() & b.black.all() == 0
}

#[test]
fn test_fen() {
    let fen = "r1bqkbnr/pp6/2n3p1/3ppp1p/2Pp1P1P/1P4P1/P1N1P3/R1BQKBNR b KQkq - 1 12";
    let b = parse_fen(fen).unwrap();
    println!("{}", b.to_text());
}

#[test]
fn parse() {
    //KQRBNP kqrbnp
    let b = board::parse(
        "rnbqkbnr
                          pppppppp
                          ________
                          ________
                          ________
                          ________
                          PPPPPPPP
                          RNBQKBNR",
    )
    .unwrap();
    println!("{}", b.to_text());
    assert_eq!(Board::new_start(), b);
}

#[test]
fn has_empty() {
    assert_eq!(false, Board::has(0b0, 0, 0));
}

#[test]
fn has_0_0() {
    assert_eq!(true, Board::has(0x0000_0000_0000_0001u64, 0, 0));
}

#[test]
fn has_1_0() {
    assert_eq!(true, Board::has(0x0000_0000_0000_0002u64, 1, 0));
}

#[test]
fn has_1_1() {
    assert_eq!(true, Board::has(0x0000_0000_0000_0200u64, 1, 1));
}

#[test]
fn it_works() {
    let b = Board::new_start();
    assert_eq!(true, b.color_at(Color::White, &Case::new(0, 0)));
}

#[test]
fn it_works2() {
    let b = Board::new_start();
    assert_eq!(false, b.color_at(Color::Black, &Case::new(0, 0)));
}

#[test]
fn move_bank() {
    let b = Board::new_start();
    println!("{}", b.to_text());
}

#[test]
fn to_text_draws_the_board() {
    let expected = "  abcdefgh\n\
7|\u{2656}\u{2658}\u{2657}\u{2655}\u{2654}\u{2657}\u{2658}\u{2656}|\n\
6|\u{2659}\u{2659}\u{2659}\u{2659}\u{2659}\u{2659}\u{2659}\u{2659}|\n\
5|        |\n\
4|        |\n\
3|        |\n\
2|        |\n\
1|\u{265F}\u{265F}\u{265F}\u{265F}\u{265F}\u{265F}\u{265F}\u{265F}|\n\
0|\u{265C}\u{265E}\u{265D}\u{265B}\u{265A}\u{265D}\u{265E}\u{265C}|\n";
    assert_eq!(expected, Board::new_start().to_text());
    let empty = "  abcdefgh\n7|        |\n6|        |\n5|        |\n4|        |\n3|        |\n2|        |\n1|        |\n0|        |\n";
    assert_eq!(empty, Board::empty().to_text());
}

#[test]
fn color_rev_and_not() {
    assert_eq!(Color::Black, Color::White.rev());
    assert_eq!(Color::White, Color::Black.rev());
    assert_eq!(Color::Black, !Color::White);
    assert_eq!(Color::White, !Color::Black);
    assert_eq!(1, Color::White.map(1, 2));
    assert_eq!(2, Color::Black.map(1, 2));
}

#[test]
fn set_unset_has_roundtrip() {
    let mut u = 0u64;
    Board::set(&mut u, 3, 4);
    assert_eq!(1u64 << 35, u);
    assert!(Board::has(u, 3, 4));
    assert!(!Board::has(u, 4, 3));
    Board::set(&mut u, 7, 7);
    assert_eq!((1u64 << 35) | (1u64 << 63), u);
    Board::unset(&mut u, 3, 4);
    assert_eq!(1u64 << 63, u);
    // a mask that lacks the square stays as it is
    Board::unset(&mut u, 0, 0);
    assert_eq!(1u64 << 63, u);
    Board::unset(&mut u, 7, 7);
    assert_eq!(0, u);
    Board::unset(&mut u, 7, 7);
    assert_eq!(0, u);
}

#[test]
fn partial_board_masks() {
    let mut pb = PartialBoard::empty();
    assert_eq!(0, pb.all());
    *pb.get_pc_board_mut(Piece::Rook) |= 0x81;
    *pb.get_pc_board_mut(Piece::King) |= 0x10;
    assert_eq!(0x81, pb.get_pc_board(Piece::Rook));
    assert_eq!(0x81, pb.rooks);
    assert_eq!(0x10, pb.king);
    assert_eq!(0x91, pb.all());
    assert_eq!(0, pb.get_pc_board(Piece::Pawn));
}

#[test]
fn board_masks_by_color() {
    let mut b = Board::empty();
    *b.get_pc_board_mut(Piece::Queen, Color::Black) |= 1 << 59;
    *b.get_pc_board_mut(Piece::Queen, Color::White) |= 1 << 3;
    assert_eq!(1 << 59, b.black.queens);
    assert_eq!(1 << 3, b.white.queens);
    assert_eq!(1 << 59, b.get_pc_board(Piece::Queen, Color::Black));
    assert_eq!(&b.white, b.get_player_board(Color::White));
    assert_eq!(&b.black, b.color(Color::Black));
    assert_eq!((1 << 59) | (1 << 3), b.all());
    b.get_player_board_mut(Color::White).pawns = 0xFF00;
    assert_eq!(0xFF00, b.white.pawns);
}

#[test]
fn start_layout_square_by_square() {
    let b = Board::new_start();
    assert!(occupancy_disjoint(&b));
    assert_eq!(Some((Piece::Rook, Color::White)), b.at(0, 0));
    assert_eq!(Some((Piece::Knight, Color::White)), b.at(1, 0));
    assert_eq!(Some((Piece::Bishop, Color::White)), b.at(2, 0));
    assert_eq!(Some((Piece::Queen, Color::White)), b.at(3, 0));
    assert_eq!(Some((Piece::King, Color::White)), b.at(4, 0));
    assert_eq!(Some((Piece::Bishop, Color::White)), b.at(5, 0));
    assert_eq!(Some((Piece::Knight, Color::White)), b.at(6, 0));
    assert_eq!(Some((Piece::Rook, Color::White)), b.at(7, 0));
    for x in 0..8u8 {
        assert_eq!(Some((Piece::Pawn, Color::White)), b.at(x, 1));
        assert_eq!(Some((Piece::Pawn, Color::Black)), b.at(x, 6));
        for y in 2..6u8 {
            assert_eq!(None, b.at(x, y));
            assert!(!b.any_at(x, y));
            assert!(b.empty_at(&Case::new(y, x)));
        }
    }
    assert_eq!(Some((Piece::Queen, Color::Black)), b.at(3, 7));
    assert_eq!(Some((Piece::King, Color::Black)), b.at_pos(&sq("e8")));
    assert!(b.any_at(4, 7));
    assert!(!b.empty_at(&sq("e8")));
}

#[test]
fn color_or_empty_at_reads_the_other_side() {
    let b = Board::new_start();
    // a1 holds a white rook
    assert!(b.color_or_empty_at(Color::White, &sq("a1")));
    assert!(!b.color_or_empty_at(Color::Black, &sq("a1")));
    // a4 is empty
    assert!(b.color_or_empty_at(Color::White, &sq("a4")));
    assert!(b.color_or_empty_at(Color::Black, &sq("a4")));
    // a8 holds a black rook
    assert!(!b.color_or_empty_at(Color::White, &sq("a8")));
    assert!(b.color_or_empty_at(Color::Black, &sq("a8")));
}

#[test]
fn hydrate_lists_every_square() {
    let b = Board::new_start();
    let squares = b.hydrate();
    for i in 0..64usize {
        assert_eq!(b.at((i % 8) as u8, (i / 8) as u8), squares[i]);
    }
    assert_eq!(Some((Piece::King, Color::White)), squares[4]);
    assert_eq!(None, squares[27]);
    assert_eq!(Some((Piece::Knight, Color::Black)), squares[62]);
    let empty = Board::empty().hydrate();
    assert!(empty.iter().all(|s| s.is_none()));
}

#[test]
fn apply_double_step_changes_two_squares_only() {
    let start = Board::new_start();
    let after = start.apply(&mv("a2", "a4")).unwrap();
    assert_eq!(None, after.at_pos(&sq("a2")));
    assert_eq!(Some((Piece::Pawn, Color::White)), after.at_pos(&sq("a4")));
    let before = start.hydrate();
    let now = after.hydrate();
    for i in 0..64usize {
        if i != 8 && i != 24 {
            assert_eq!(before[i], now[i]);
        }
    }
    assert!(occupancy_disjoint(&after));
    // the board that was played on is as before
    assert_eq!(Board::new_start(), start);
}

#[test]
fn apply_from_empty_square_fails() {
    let start = Board::new_start();
    assert_eq!(None, start.apply(&mv("a3", "a4")));
    assert_eq!(None, Board::empty().apply(&mv("a1", "a2")));
}

#[test]
fn apply_takes_whatever_stands_on_the_destination() {
    let start = Board::new_start();
    // onto a piece of the other color
    let after = start.apply(&mv("a1", "a8")).unwrap();
    assert_eq!(Some((Piece::Rook, Color::White)), after.at_pos(&sq("a8")));
    assert_eq!(None, after.at_pos(&sq("a1")));
    assert_eq!(0x8000_0000_0000_0000, after.black.rooks);
    assert_eq!(0x0100_0000_0000_0080, after.white.rooks);
    assert!(occupancy_disjoint(&after));
    // onto a piece of the mover's own color
    let after = start.apply(&mv("a1", "a2")).unwrap();
    assert_eq!(Some((Piece::Rook, Color::White)), after.at_pos(&sq("a2")));
    assert_eq!(0xFE00, after.white.pawns);
    assert_eq!(0x0180, after.white.rooks);
    assert!(occupancy_disjoint(&after));
}

#[test]
fn apply_promotes() {
    let mut b = Board::empty();
    *b.get_pc_board_mut(Piece::Pawn, Color::White) |= sq("b7").board();
    let m = GenMove { promotion: Some(Piece::Queen), ..mv("b7", "b8") };
    let after = b.apply(&m).unwrap();
    assert_eq!(Some((Piece::Queen, Color::White)), after.at_pos(&sq("b8")));
    assert_eq!(0, after.white.pawns);
    assert_eq!(1u64 << 57, after.white.queens);
}

#[test]
fn apply_to_the_same_square_keeps_the_piece() {
    let start = Board::new_start();
    let after = start.apply(&mv("e1", "e1")).unwrap();
    assert_eq!(start, after);
}

#[test]
fn parse_is_lenient() {
    // unknown characters are passed over and take no square
    let b = board::parse("  x_K?_\n").unwrap();
    assert_eq!(Some((Piece::King, Color::White)), b.at(1, 7));
    assert_eq!(1u64 << 57, b.all());
    // empty lines take no rank, also with a carriage return before the line feed
    let b = board::parse("\n\r\nq\n\nQ").unwrap();
    assert_eq!(Some((Piece::Queen, Color::Black)), b.at(0, 7));
    assert_eq!(Some((Piece::Queen, Color::White)), b.at(0, 6));
    // a line of unknown characters still takes a rank
    let b = board::parse("   \nr").unwrap();
    assert_eq!(Some((Piece::Rook, Color::Black)), b.at(0, 6));
    assert_eq!(1u64 << 48, b.all());
    // cells beyond the eighth file and rows beyond the eighth are left out
    let b = board::parse("________p\n_\n_\n_\n_\n_\n_\nN\nn").unwrap();
    assert_eq!(1u64, b.all());
    assert_eq!(Some((Piece::Knight, Color::White)), b.at(0, 0));
    assert_eq!(Some(Board::empty()), board::parse(""));
}

#[test]
fn parse_fen_start_position() {
    let fen = "rnbqkbnr/pppppppp/8/8/8/8/PPPPPPPP/RNBQKBNR w KQkq - 0 1";
    assert_eq!(Some(Board::new_start()), parse_fen(fen));
    assert_eq!(
        Some((Board::new_start(), Color::White)),
        parse_fen_color(&mut fen.chars())
    );
}

#[test]
fn parse_fen_color_reads_side_to_move() {
    let fen = "r1bqkbnr/pp6/2n3p1/3ppp1p/2Pp1P1P/1P4P1/P1N1P3/R1BQKBNR b KQkq - 1 12";
    let mut it = fen.chars();
    let (b, c) = parse_fen_color(&mut it).unwrap();
    assert_eq!(Color::Black, c);
    assert_eq!(" KQkq - 1 12", it.as_str());
    assert!(occupancy_disjoint(&b));
    assert_eq!(Some((Piece::Rook, Color::Black)), b.at_pos(&sq("a8")));
    assert_eq!(None, b.at_pos(&sq("b8")));
    assert_eq!(Some((Piece::Bishop, Color::Black)), b.at_pos(&sq("c8")));
    assert_eq!(Some((Piece::Pawn, Color::Black)), b.at_pos(&sq("d4")));
    assert_eq!(Some((Piece::Pawn, Color::White)), b.at_pos(&sq("c4")));
    assert_eq!(Some((Piece::Knight, Color::White)), b.at_pos(&sq("c2")));
    assert_eq!(Some((Piece::Rook, Color::White)), b.at_pos(&sq("h1")));
    // without a side to move, or with any other token, White moves
    assert_eq!(Color::White, parse_fen_color(&mut "8/8".chars()).unwrap().1);
    assert_eq!(Color::White, parse_fen_color(&mut "8/8 ".chars()).unwrap().1);
    assert_eq!(Color::White, parse_fen_color(&mut "8/8 x".chars()).unwrap().1);
    assert_eq!(Color::Black, parse_fen_color(&mut "8/8 b".chars()).unwrap().1);
}

#[test]
fn parse_fen_rejects_what_it_cannot_read() {
    // a character that is no piece, digit or separator
    assert_eq!(None, parse_fen("rnbqkbnr/ppppxppp/8/8/8/8/PPPPPPPP/RNBQKBNR w"));
    assert_eq!(None, parse_fen("_"));
    // a ninth rank
    assert_eq!(None, parse_fen("8/8/8/8/8/8/8/8/8 w"));
    // a piece beyond the eighth file
    assert_eq!(None, parse_fen("8p/8 w"));
    assert_eq!(None, parse_fen("ppppppppp w"));
    // empty runs may pass the eighth file as long as no piece follows
    assert_eq!(Some(Board::empty()), parse_fen("99/9 w"));
    assert_eq!(Some(Board::empty()), parse_fen(""));
}

#[test]
fn played_games_keep_the_colors_apart() {
    let tables = AttackTables::new();
    for pick in 0..7usize {
        let mut b = Board::new_start();
        let mut c = Color::White;
        for ply in 0..60usize {
            let moves = generate_moves(&tables, &b, c);
            if moves.is_empty() {
                break;
            }
            let m = moves[(pick * 5 + ply * 3) % moves.len()];
            b = b.apply(&m).unwrap();
            assert!(occupancy_disjoint(&b), "{:?}", b);
            c = !c;
        }
    }
}
