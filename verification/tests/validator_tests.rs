use rustchess::board::{parse, parse_fen, Board, Color, Piece};
use rustchess::move_generator::{generate_moves, AttackTables, Case, Flags, GenMove};
use rustchess::validator::MoveType::{Capture, Quiet};
use rustchess::validator::{MoveType, Validator};

fn sq(name: &str) -> Case {
    Case::parse(&mut name.chars()).unwrap()
}

fn check(b: &Board, from: &str, to: &str) -> Option<MoveType> {
    Validator::check_move(b, &GenMove::new(sq(from), sq(to), Flags::none()))
}

fn with(b: &Board, p: Piece, c: Color, at: &str) -> Board {
    let mut b = b.clone();
    *b.get_pc_board_mut(p, c) |= sq(at).board();
    b
}

#[test]
fn validate_pawn_w_quiet_move1() {
    let b = Board::new_start();
    assert_eq!(
        Some(Quiet),
        Validator::check_move(
            &b,
            &GenMove::new(Case::new(1, 0), Case::new(2, 0), Flags::none())
        )
    );
}

#[test]
fn validate_pawn_pushes_from_start() {
    let b = Board::new_start();
    assert_eq!(Some(Quiet), check(&b, "a2", "a3"));
    assert_eq!(Some(Quiet), check(&b, "a2", "a4"));
    assert_eq!(None, check(&b, "a2", "a5"));
    assert_eq!(Some(Quiet), check(&b, "a7", "a6"));
    assert_eq!(Some(Quiet), check(&b, "a7", "a5"));
    assert_eq!(None, check(&b, "a7", "a4"));
    // backwards or sideways is no pawn move
    assert_eq!(None, check(&b, "a2", "a1"));
    assert_eq!(None, check(&b, "a7", "a8"));
    assert_eq!(None, check(&b, "a2", "b2"));
    assert_eq!(None, check(&b, "a2", "c3"));
}

#[test]
fn validate_pawn_double_step_only_from_start_rank() {
    let b = with(&Board::empty(), Piece::Pawn, Color::White, "c3");
    assert_eq!(Some(Quiet), check(&b, "c3", "c4"));
    assert_eq!(None, check(&b, "c3", "c5"));
    let b = with(&Board::empty(), Piece::Pawn, Color::Black, "c6");
    assert_eq!(Some(Quiet), check(&b, "c6", "c5"));
    assert_eq!(None, check(&b, "c6", "c4"));
}

#[test]
fn validate_pawn_diagonal_needs_a_piece_to_take() {
    let b = Board::new_start();
    assert_eq!(None, check(&b, "a2", "b3"));
    let b = with(&b, Piece::Knight, Color::Black, "b3");
    assert_eq!(Some(Capture), check(&b, "a2", "b3"));
    // not onto a piece of its own color
    let b = with(&Board::new_start(), Piece::Knight, Color::White, "b3");
    assert_eq!(None, check(&b, "a2", "b3"));
    let b = with(&Board::new_start(), Piece::Knight, Color::White, "b6");
    assert_eq!(Some(Capture), check(&b, "a7", "b6"));
    assert_eq!(Some(Capture), check(&b, "c7", "b6"));
}

#[test]
fn validate_empty_origin() {
    let b = Board::new_start();
    assert_eq!(None, check(&b, "a3", "a4"));
    assert_eq!(None, check(&Board::empty(), "e2", "e4"));
}

#[test]
fn validate_knight() {
    let b = Board::new_start();
    assert_eq!(Some(Quiet), check(&b, "b1", "a3"));
    assert_eq!(Some(Quiet), check(&b, "b1", "c3"));
    assert_eq!(None, check(&b, "b1", "b3"));
    // onto a piece of its own color
    assert_eq!(None, check(&b, "b1", "d2"));
    let b = with(&b, Piece::Pawn, Color::Black, "c3");
    assert_eq!(Some(Capture), check(&b, "b1", "c3"));
}

#[test]
fn validate_rook_h_quiet() {
    let b = parse(
        "
________
________
________
________
________
__R_____
________
________",
    )
    .unwrap();
    assert_eq!(Some(Quiet), check(&b, "c3", "a3"));
    assert_eq!(Some(Quiet), check(&b, "c3", "c1"));
    assert_eq!(Some(Quiet), check(&b, "c3", "e3"));
    assert_eq!(Some(Quiet), check(&b, "c3", "c5"));
    assert_eq!(Some(Quiet), check(&b, "c3", "c8"));
    assert_eq!(None, check(&b, "c3", "e5"));
    assert_eq!(None, check(&b, "c3", "c3"));
}

#[test]
fn validate_rook_sliding_past_own_piece() {
    let b = with(&Board::empty(), Piece::Rook, Color::White, "a1");
    let b = with(&b, Piece::Knight, Color::White, "c1");
    assert_eq!(Some(Quiet), check(&b, "a1", "b1"));
    assert_eq!(None, check(&b, "a1", "c1"));
    assert_eq!(None, check(&b, "a1", "d1"));
    assert_eq!(None, check(&b, "a1", "h1"));
    assert_eq!(Some(Quiet), check(&b, "a1", "a8"));
}

#[test]
fn validate_rook_sliding_onto_other_piece() {
    let b = with(&Board::empty(), Piece::Rook, Color::White, "a1");
    let b = with(&b, Piece::Knight, Color::Black, "c1");
    assert_eq!(Some(Quiet), check(&b, "a1", "b1"));
    assert_eq!(Some(Capture), check(&b, "a1", "c1"));
    assert_eq!(None, check(&b, "a1", "d1"));
    assert_eq!(None, check(&b, "a1", "h1"));
}

#[test]
fn validate_rook_obstacle_on_a_file() {
    let b = with(&Board::empty(), Piece::Rook, Color::Black, "d8");
    let b = with(&b, Piece::Pawn, Color::White, "d4");
    assert_eq!(Some(Quiet), check(&b, "d8", "d5"));
    assert_eq!(Some(Capture), check(&b, "d8", "d4"));
    assert_eq!(None, check(&b, "d8", "d3"));
    // the square beside the path does not block
    let b = with(&b, Piece::Pawn, Color::White, "e6");
    assert_eq!(Some(Quiet), check(&b, "d8", "d5"));
}

#[test]
fn validate_bishop_quiet() {
    let b = with(&Board::empty(), Piece::Bishop, Color::Black, "c3");
    assert_eq!(Some(Quiet), check(&b, "c3", "a1"));
    assert_eq!(Some(Quiet), check(&b, "c3", "d4"));
    assert_eq!(Some(Quiet), check(&b, "c3", "d2"));
    assert_eq!(Some(Quiet), check(&b, "c3", "a5"));
    assert_eq!(Some(Quiet), check(&b, "c3", "h8"));
    assert_eq!(None, check(&b, "c3", "e6"));
    assert_eq!(None, check(&b, "c3", "c4"));
    assert_eq!(None, check(&b, "c3", "c3"));
}

#[test]
fn validate_bishop_capture() {
    let b = with(&Board::empty(), Piece::Bishop, Color::Black, "c3");
    let b = with(&b, Piece::Knight, Color::White, "e5");
    assert_eq!(Some(Capture), check(&b, "c3", "e5"));
    assert_eq!(None, check(&b, "c3", "f6"));
    assert_eq!(Some(Quiet), check(&b, "c3", "d4"));
    // a piece off the diagonal does not block
    let b = with(&b, Piece::Knight, Color::White, "c2");
    assert_eq!(Some(Quiet), check(&b, "c3", "a1"));
    let b = with(&b, Piece::Knight, Color::Black, "b2");
    assert_eq!(None, check(&b, "c3", "a1"));
    assert_eq!(None, check(&b, "c3", "b2"));
}

#[test]
fn validate_queen() {
    let b = with(&Board::empty(), Piece::Queen, Color::White, "d1");
    assert_eq!(Some(Quiet), check(&b, "d1", "d8"));
    assert_eq!(Some(Quiet), check(&b, "d1", "h1"));
    assert_eq!(Some(Quiet), check(&b, "d1", "h5"));
    assert_eq!(Some(Quiet), check(&b, "d1", "a4"));
    assert_eq!(None, check(&b, "d1", "e3"));
    let b = with(&b, Piece::Pawn, Color::Black, "d5");
    assert_eq!(Some(Capture), check(&b, "d1", "d5"));
    assert_eq!(None, check(&b, "d1", "d6"));
    let b = with(&b, Piece::Pawn, Color::White, "f3");
    assert_eq!(None, check(&b, "d1", "f3"));
    assert_eq!(None, check(&b, "d1", "g4"));
    assert_eq!(Some(Quiet), check(&b, "d1", "e2"));
}

#[test]
fn validate_king() {
    let b = with(&Board::empty(), Piece::King, Color::White, "e4");
    assert_eq!(Some(Quiet), check(&b, "e4", "e5"));
    assert_eq!(Some(Quiet), check(&b, "e4", "e3"));
    assert_eq!(Some(Quiet), check(&b, "e4", "d4"));
    assert_eq!(Some(Quiet), check(&b, "e4", "f4"));
    // the one-step diagonal is not accepted
    assert_eq!(None, check(&b, "e4", "f5"));
    assert_eq!(None, check(&b, "e4", "d3"));
    assert_eq!(None, check(&b, "e4", "e6"));
    assert_eq!(None, check(&b, "e4", "e4"));
    let b = with(&b, Piece::Pawn, Color::Black, "e5");
    assert_eq!(Some(Capture), check(&b, "e4", "e5"));
    let b = with(&b, Piece::Pawn, Color::White, "d4");
    assert_eq!(None, check(&b, "e4", "d4"));
}

#[test]
fn move_type_maps() {
    assert_eq!(Some(Quiet), MoveType::map_quiet(true));
    assert_eq!(None, MoveType::map_quiet(false));
    assert_eq!(Some(Capture), MoveType::map_capture(true));
    assert_eq!(None, MoveType::map_capture(false));
    assert_eq!(Some(Capture), MoveType::map(true, true));
    assert_eq!(Some(Quiet), MoveType::map(true, false));
    assert_eq!(None, MoveType::map(false, true));
    assert_eq!(None, MoveType::map(false, false));
}

#[test]
fn validator_accepts_what_the_generator_gives() {
    let tables = AttackTables::new();
    let boards = [
        Board::new_start(),
        parse_fen("r1bqkbnr/pp6/2n3p1/3ppp1p/2Pp1P1P/1P4P1/P1N1P3/R1BQKBNR b KQkq - 1 12").unwrap(),
        parse_fen("r3k2r/1P4p1/2n5/R2pP3/8/5N2/p5PP/4K2R w").unwrap(),
    ];
    let mut seen = 0;
    for b in boards.iter() {
        for c in [Color::White, Color::Black] {
            for m in generate_moves(&tables, b, c) {
                let expected = if m.flags.contains(Flags::capture()) {
                    Capture
                } else {
                    Quiet
                };
                assert_eq!(Some(expected), Validator::check_move(b, &m), "{:?}", m);
                seen += 1;
            }
        }
    }
    assert!(seen > 60);
}
